//! Rewrites specific SVG constructs into a form that the renderer and the
//! converter handle more predictably.
//!
//! At the moment this only rewrites `clipPath` elements that contain raster
//! images into alpha masks, so that the resulting PDF semantics stay intact.
//! The rewriting works on the bytes of the document; every pattern it looks
//! for is a whole UTF-8 sequence, so byte-wise matches are character matches.

use vstd::prelude::*;

use vstd::string::StringSliceAdditionalSpecFns;

use crate::tex_engine::is_literal;
use crate::text::{lemma_insert_sorted_at, lemma_sort_by_len, sort_by};
use vstd::utf8::{decode_utf8, encode_utf8, valid_utf8};

verus! {

/// One node of a parsed XML document, in the document's own numbering.
pub struct XmlNode {
    pub id: usize,
    pub parent: Option<usize>,
    pub is_element: bool,
    pub tag_name: String,
    pub id_attr: Option<String>,
    pub start: usize,
    pub end: usize,
}

/// A parsed XML node as values.
pub struct XmlNodeView {
    pub id: usize,
    pub parent: Option<usize>,
    pub is_element: bool,
    pub tag_name: Seq<char>,
    pub id_attr: Option<Seq<char>>,
    pub start: usize,
    pub end: usize,
}

impl View for XmlNode {
    type V = XmlNodeView;

    open spec fn view(&self) -> XmlNodeView {
        XmlNodeView {
            id: self.id,
            parent: self.parent,
            is_element: self.is_element,
            tag_name: self.tag_name@,
            id_attr: match self.id_attr {
                Some(s) => Some(s@),
                None => None,
            },
            start: self.start,
            end: self.end,
        }
    }
}

pub open spec fn node_views(ns: Seq<XmlNode>) -> Seq<XmlNodeView> {
    ns.map_values(|n: XmlNode| n@)
}

/// The nodes that `roxmltree` finds when it parses `source`, in the order of
/// `Document::descendants`: each node's number and its parent's, whether it is
/// an element, its local tag name, its `id` attribute and its byte range.
/// `None` when the text is not well-formed XML.
pub uninterp spec fn parsed_xml(source: Seq<char>) -> Option<Seq<XmlNodeView>>;

/// Parses `source` with `roxmltree::Document::parse` and lists every node of
/// the document as plain values.
#[verifier::external_body]
fn parse_xml_nodes(source: &str) -> (r: Option<Vec<XmlNode>>)
    ensures
        match r {
            Some(v) => parsed_xml(source@) == Some(node_views(v@)),
            None => parsed_xml(source@) is None,
        },
{
    let doc = roxmltree::Document::parse(source).ok()?;
    Some(doc.descendants().map(|n| XmlNode {
        id: n.id().get_usize(),
        parent: n.parent().map(|p| p.id().get_usize()),
        is_element: n.is_element(),
        tag_name: n.tag_name().name().to_string(),
        id_attr: n.attribute("id").map(|v| v.to_string()),
        start: n.range().start,
        end: n.range().end,
    }).collect())
}

/// Calls `std::str::from_utf8`: the text of `bytes` when they are valid UTF-8.
#[verifier::external_body]
fn utf8_text(bytes: &[u8]) -> (r: Option<&str>)
    ensures
        r is Some <==> valid_utf8(bytes@),
        r matches Some(s) ==> s.spec_bytes() == bytes@,
{
    std::str::from_utf8(bytes).ok()
}

// ---------------------------------------------------------------------------
// Byte patterns
// ---------------------------------------------------------------------------

/// `p` occurs in `s` at position `i`.
pub open spec fn matches_at(s: Seq<u8>, p: Seq<u8>, i: int) -> bool {
    0 <= i && i + p.len() <= s.len() && s.subrange(i, i + p.len()) == p
}

/// The first position at or after `i` where `p` occurs.
pub open spec fn find_from(s: Seq<u8>, p: Seq<u8>, i: int) -> Option<int>
    decreases s.len() + 1 - i,
{
    if i < 0 || i + p.len() > s.len() {
        None
    } else if matches_at(s, p, i) {
        Some(i)
    } else {
        find_from(s, p, i + 1)
    }
}

/// The first position where `p` occurs (`str::find`).
pub open spec fn find(s: Seq<u8>, p: Seq<u8>) -> Option<int> {
    find_from(s, p, 0)
}

/// The last position at or before `i` where `p` occurs.
pub open spec fn rfind_from(s: Seq<u8>, p: Seq<u8>, i: int) -> Option<int>
    decreases i + 1,
{
    if i < 0 {
        None
    } else if matches_at(s, p, i) {
        Some(i)
    } else {
        rfind_from(s, p, i - 1)
    }
}

/// The last position where `p` occurs (`str::rfind`).
pub open spec fn rfind(s: Seq<u8>, p: Seq<u8>) -> Option<int> {
    rfind_from(s, p, s.len() - p.len())
}

/// `s` with its first occurrence of `from` replaced by `to` (`replacen(.., 1)`).
pub open spec fn replace_first(s: Seq<u8>, from: Seq<u8>, to: Seq<u8>) -> Seq<u8> {
    match find(s, from) {
        Some(k) => s.take(k) + to + s.skip(k + from.len()),
        None => s,
    }
}

/// `s` with every occurrence of `from`, found left to right without overlap,
/// replaced by `to` (`str::replace`).
pub open spec fn replace_all(s: Seq<u8>, from: Seq<u8>, to: Seq<u8>) -> Seq<u8>
    decreases s.len(),
{
    if from.len() == 0 || s.len() < from.len() {
        s
    } else if s.take(from.len() as int) == from {
        to + replace_all(s.skip(from.len() as int), from, to)
    } else {
        seq![s[0]] + replace_all(s.skip(1), from, to)
    }
}

/// The bytes of a string literal.
pub open spec fn lit(s: &str) -> Seq<u8> {
    s.spec_bytes()
}

// ---------------------------------------------------------------------------
// Which clip paths are rewritten
// ---------------------------------------------------------------------------

/// The first position at or after `i` of a node numbered `id`.
pub open spec fn position_from(nodes: Seq<XmlNodeView>, id: usize, i: int) -> Option<int>
    decreases nodes.len() - i,
{
    if i < 0 || i >= nodes.len() {
        None
    } else if nodes[i].id == id {
        Some(i)
    } else {
        position_from(nodes, id, i + 1)
    }
}

/// The position of the node numbered `id`: the position `id` itself when the
/// node there carries that number (as it does when nodes are numbered in
/// document order), else the first position of a node with that number.
pub open spec fn position_of(nodes: Seq<XmlNodeView>, id: usize) -> Option<int> {
    if id < nodes.len() && nodes[id as int].id == id {
        Some(id as int)
    } else {
        position_from(nodes, id, 0)
    }
}

/// The node at `cur` is the node numbered `id` or lies below it, following at
/// most `fuel` parent links.
pub open spec fn within(nodes: Seq<XmlNodeView>, cur: int, id: usize, fuel: nat) -> bool
    decreases fuel,
{
    if fuel == 0 || cur < 0 || cur >= nodes.len() {
        false
    } else if nodes[cur].id == id {
        true
    } else {
        match nodes[cur].parent {
            Some(p) => match position_of(nodes, p) {
                Some(j) => within(nodes, j, id, (fuel - 1) as nat),
                None => false,
            },
            None => false,
        }
    }
}

/// The node at `a` has an `image` element among its descendants (or is one).
pub open spec fn holds_image(nodes: Seq<XmlNodeView>, a: int) -> bool {
    exists|m: int|
        0 <= m < nodes.len() && nodes[m].is_element && nodes[m].tag_name == "image"@ && #[trigger] within(
            nodes,
            m,
            nodes[a].id,
            nodes.len(),
        )
}

/// A `clipPath` element to rewrite: its `id` and its byte range.
pub struct ClipTarget {
    pub id: Seq<char>,
    pub start: usize,
    pub end: usize,
}

/// The node at `a` is a `clipPath` element with an `id` that holds an image.
pub open spec fn is_clip_target(nodes: Seq<XmlNodeView>, a: int) -> bool {
    &&& nodes[a].is_element
    &&& nodes[a].tag_name == "clipPath"@
    &&& nodes[a].id_attr is Some
    &&& holds_image(nodes, a)
}

/// The clip paths to rewrite among the first `k` nodes, in document order.
pub open spec fn clip_targets(nodes: Seq<XmlNodeView>, k: int) -> Seq<ClipTarget>
    decreases k,
{
    if k <= 0 {
        Seq::empty()
    } else {
        clip_targets(nodes, k - 1) + if is_clip_target(nodes, k - 1) {
            seq![ClipTarget { id: nodes[k - 1].id_attr->0, start: nodes[k - 1].start, end: nodes[k - 1].end }]
        } else {
            Seq::empty()
        }
    }
}

/// The order in which clip paths are rewritten: from the end of the document
/// backwards, so that earlier byte ranges stay valid (ties keep their order).
pub open spec fn later_first(a: ClipTarget, b: ClipTarget) -> bool {
    b.start < a.start
}

pub open spec fn later_first_order() -> spec_fn(ClipTarget, ClipTarget) -> bool {
    |a: ClipTarget, b: ClipTarget| later_first(a, b)
}

// ---------------------------------------------------------------------------
// The rewriting
// ---------------------------------------------------------------------------

/// The opening tag of an alpha mask that replaces `<clipPath`.
pub open spec fn mask_open() -> Seq<u8> {
    lit("<mask mask-type=\"alpha\" maskUnits=\"userSpaceOnUse\" maskContentUnits=\"userSpaceOnUse\"")
}

/// The element between `start` and `end` rewritten from a clip path into a
/// mask: `<clipPath` becomes the mask's opening tag, the content is kept and
/// `</clipPath>` becomes `</mask>`. Left as it is when the range does not lie in
/// the text or the element has no closing tag after its opening tag.
pub open spec fn rewrite_element(text: Seq<u8>, start: int, end: int) -> Seq<u8> {
    if 0 <= start <= end <= text.len() {
        let element = text.subrange(start, end);
        match (find(element, lit(">")), rfind(element, lit("</clipPath>"))) {
            (Some(open_end), Some(close_start)) => if open_end < close_start {
                let opening = element.take(open_end + 1);
                let inner = element.subrange(open_end + 1, close_start);
                let new_opening = replace_first(
                    replace_first(opening, lit("<clipPath"), mask_open()),
                    lit("<clipPath:"),
                    lit("<mask:"),
                );
                text.take(start) + new_opening + inner + lit("</mask>") + text.skip(end)
            } else {
                text
            },
            _ => text,
        }
    } else {
        text
    }
}

/// Rewrites the elements of `targets` one after the other.
pub open spec fn rewrite_elements(text: Seq<u8>, targets: Seq<ClipTarget>) -> Seq<u8>
    decreases targets.len(),
{
    if targets.len() == 0 {
        text
    } else {
        let t = targets.last();
        rewrite_element(rewrite_elements(text, targets.drop_last()), t.start as int, t.end as int)
    }
}

/// Turns every reference to the clip path `id` (as attribute in double or
/// single quotes, or as style property) into a reference to the mask.
pub open spec fn rewrite_references(text: Seq<u8>, id: Seq<char>) -> Seq<u8> {
    let i = encode_utf8(id);
    let t1 = replace_all(text, lit("clip-path=\"url(#") + i + lit(")\""), lit("mask=\"url(#") + i + lit(")\""));
    let t2 = replace_all(t1, lit("clip-path='url(#") + i + lit(")'"), lit("mask='url(#") + i + lit(")'"));
    replace_all(t2, lit("clip-path:url(#") + i + lit(")"), lit("mask:url(#") + i + lit(")"))
}

/// Rewrites the references of each of `targets`, in order.
pub open spec fn rewrite_all_references(text: Seq<u8>, targets: Seq<ClipTarget>) -> Seq<u8>
    decreases targets.len(),
{
    if targets.len() == 0 {
        text
    } else {
        rewrite_references(rewrite_all_references(text, targets.drop_last()), targets.last().id)
    }
}

/// The document rewritten for the nodes that its parse found: unchanged when
/// no clip path holds an image.
pub open spec fn rewritten_with(data: Seq<u8>, nodes: Seq<XmlNodeView>) -> Seq<u8> {
    let targets = sort_by(clip_targets(nodes, nodes.len() as int), later_first_order());
    if targets.len() == 0 {
        data
    } else {
        rewrite_all_references(rewrite_elements(data, targets), targets)
    }
}

/// The rewritten document: unchanged unless it is UTF-8, parses as XML and has
/// a clip path holding an image.
pub open spec fn preprocessed(data: Seq<u8>) -> Seq<u8> {
    if !valid_utf8(data) {
        data
    } else {
        match parsed_xml(decode_utf8(data)) {
            None => data,
            Some(nodes) => rewritten_with(data, nodes),
        }
    }
}

// ---------------------------------------------------------------------------
// Byte operations
// ---------------------------------------------------------------------------

/// Appends the bytes `src[a..b]`.
fn push_range(out: &mut Vec<u8>, src: &[u8], a: usize, b: usize)
    requires
        a <= b <= src@.len(),
    ensures
        final(out)@ == old(out)@ + src@.subrange(a as int, b as int),
{
    let mut i = a;
    while i < b
        invariant
            a <= i <= b,
            b <= src@.len(),
            out@ == old(out)@ + src@.subrange(a as int, i as int),
        decreases b - i,
    {
        out.push(src[i]);
        proof {
            assert(src@.subrange(a as int, i + 1) =~= src@.subrange(a as int, i as int).push(src@[i as int]));
        }
        i = i + 1;
    }
}

/// Appends all of `src`.
fn push_all(out: &mut Vec<u8>, src: &[u8])
    ensures
        final(out)@ == old(out)@ + src@,
{
    push_range(out, src, 0, src.len());
    proof {
        assert(src@.subrange(0, src@.len() as int) =~= src@);
    }
}

/// `p` occurs in `s` at `i`.
fn bytes_match_at(s: &[u8], p: &[u8], i: usize) -> (r: bool)
    ensures
        r == matches_at(s@, p@, i as int),
{
    if i > s.len() || p.len() > s.len() - i {
        return false;
    }
    let n = s.len();
    let mut k: usize = 0;
    while k < p.len()
        invariant
            n == s@.len(),
            i + p@.len() <= s@.len(),
            k <= p@.len(),
            forall|j: int| 0 <= j < k ==> s@[i + j] == p@[j],
        decreases p@.len() - k,
    {
        if s[i + k] != p[k] {
            proof {
                assert(s@.subrange(i as int, i + p@.len())[k as int] != p@[k as int]);
            }
            return false;
        }
        k = k + 1;
    }
    proof {
        assert(s@.subrange(i as int, i + p@.len()) =~= p@);
    }
    true
}

/// The first position of `p` in `s`.
fn find_bytes(s: &[u8], p: &[u8]) -> (r: Option<usize>)
    ensures
        match r {
            Some(k) => find(s@, p@) == Some(k as int),
            None => find(s@, p@) is None,
        },
{
    if p.len() > s.len() {
        return None;
    }
    let last = s.len() - p.len();
    let mut i: usize = 0;
    while i <= last
        invariant
            last == s@.len() - p@.len(),
            find(s@, p@) == find_from(s@, p@, i as int),
            i <= last + 1,
        decreases last + 1 - i,
    {
        if bytes_match_at(s, p, i) {
            return Some(i);
        }
        if i == last {
            proof {
                assert(find_from(s@, p@, i + 1) is None);
            }
            return None;
        }
        i = i + 1;
    }
    None
}

/// The last position of `p` in `s`.
fn rfind_bytes(s: &[u8], p: &[u8]) -> (r: Option<usize>)
    ensures
        match r {
            Some(k) => rfind(s@, p@) == Some(k as int),
            None => rfind(s@, p@) is None,
        },
{
    if p.len() > s.len() {
        proof {
            assert(rfind_from(s@, p@, s@.len() - p@.len()) is None);
        }
        return None;
    }
    let mut i: usize = s.len() - p.len();
    loop
        invariant
            i <= s@.len() - p@.len(),
            rfind(s@, p@) == rfind_from(s@, p@, i as int),
        decreases i,
    {
        if bytes_match_at(s, p, i) {
            return Some(i);
        }
        if i == 0 {
            proof {
                assert(rfind_from(s@, p@, -1) is None);
            }
            return None;
        }
        i = i - 1;
    }
}

/// `s` with its first occurrence of `from` replaced by `to`.
fn replace_first_bytes(s: &[u8], from: &[u8], to: &[u8]) -> (r: Vec<u8>)
    ensures
        r@ == replace_first(s@, from@, to@),
{
    let mut out: Vec<u8> = Vec::new();
    let n = s.len();
    match find_bytes(s, from) {
        Some(k) => {
            proof {
                lemma_find_from_bounds(s@, from@, 0);
            }
            push_range(&mut out, s, 0, k);
            push_all(&mut out, to);
            push_range(&mut out, s, k + from.len(), n);
            proof {
                assert(out@ =~= s@.take(k as int) + to@ + s@.skip(k + from@.len()));
            }
        },
        None => {
            push_all(&mut out, s);
            proof {
                assert(out@ =~= s@);
            }
        },
    }
    out
}

proof fn lemma_find_from_bounds(s: Seq<u8>, p: Seq<u8>, i: int)
    ensures
        find_from(s, p, i) matches Some(k) ==> i <= k && matches_at(s, p, k),
    decreases s.len() + 1 - i,
{
    if !(i < 0 || i + p.len() > s.len()) && !matches_at(s, p, i) {
        lemma_find_from_bounds(s, p, i + 1);
    }
}

proof fn lemma_rfind_from_bounds(s: Seq<u8>, p: Seq<u8>, i: int)
    ensures
        rfind_from(s, p, i) matches Some(k) ==> k <= i && matches_at(s, p, k),
    decreases i + 1,
{
    if i >= 0 && !matches_at(s, p, i) {
        lemma_rfind_from_bounds(s, p, i - 1);
    }
}

/// `s` with every occurrence of `from` replaced by `to`, left to right.
fn replace_all_bytes(s: &[u8], from: &[u8], to: &[u8]) -> (r: Vec<u8>)
    ensures
        r@ == replace_all(s@, from@, to@),
{
    let mut out: Vec<u8> = Vec::new();
    if from.len() == 0 {
        push_all(&mut out, s);
        proof {
            assert(out@ =~= s@);
        }
        return out;
    }
    let n = s.len();
    let mut i: usize = 0;
    proof {
        assert(s@.skip(0) =~= s@);
    }
    while i < n
        invariant
            n == s@.len(),
            from@.len() > 0,
            i <= n,
            out@ + replace_all(s@.skip(i as int), from@, to@) == replace_all(s@, from@, to@),
        decreases n - i,
    {
        let ghost rest = s@.skip(i as int);
        if bytes_match_at(s, from, i) {
            push_all(&mut out, to);
            proof {
                assert(rest.take(from@.len() as int) =~= s@.subrange(i as int, i + from@.len()));
                assert(rest.skip(from@.len() as int) =~= s@.skip(i + from@.len()));
                assert(out@ + replace_all(s@.skip(i + from@.len()), from@, to@) =~= replace_all(s@, from@, to@));
            }
            i = i + from.len();
        } else {
            out.push(s[i]);
            proof {
                if rest.len() >= from@.len() {
                    assert(rest.take(from@.len() as int) =~= s@.subrange(i as int, i + from@.len()));
                }
                assert(rest.skip(1) =~= s@.skip(i + 1));
                assert(rest[0] == s@[i as int]);
                assert(out@ + replace_all(s@.skip(i + 1), from@, to@) =~= replace_all(s@, from@, to@));
            }
            i = i + 1;
        }
    }
    proof {
        assert(s@.skip(i as int) =~= Seq::<u8>::empty());
        assert(out@ + Seq::<u8>::empty() =~= out@);
    }
    out
}

// ---------------------------------------------------------------------------
// Finding the clip paths
// ---------------------------------------------------------------------------

/// The clip path of the node at position `k`.
pub open spec fn target_at(nodes: Seq<XmlNodeView>, k: int) -> ClipTarget {
    ClipTarget { id: nodes[k].id_attr->0, start: nodes[k].start, end: nodes[k].end }
}

/// The clip paths of the nodes at the positions `order`.
pub open spec fn targets_at(nodes: Seq<XmlNodeView>, order: Seq<usize>) -> Seq<ClipTarget> {
    order.map_values(|k: usize| target_at(nodes, k as int))
}

/// The position of the node numbered `id`.
fn position_in(nodes: &Vec<XmlNode>, id: usize) -> (r: Option<usize>)
    ensures
        match r {
            Some(k) => k < nodes@.len() && position_of(node_views(nodes@), id) == Some(k as int),
            None => position_of(node_views(nodes@), id) is None,
        },
{
    let ghost v = node_views(nodes@);
    if id < nodes.len() && nodes[id].id == id {
        return Some(id);
    }
    let mut i: usize = 0;
    while i < nodes.len()
        invariant
            v == node_views(nodes@),
            i <= nodes@.len(),
            position_of(v, id) == position_from(v, id, i as int),
        decreases nodes@.len() - i,
    {
        if nodes[i].id == id {
            return Some(i);
        }
        i = i + 1;
    }
    None
}

/// The node at position `m` is the node numbered `id` or lies below it.
fn node_within(nodes: &Vec<XmlNode>, m: usize, id: usize) -> (r: bool)
    requires
        m < nodes@.len(),
    ensures
        r == within(node_views(nodes@), m as int, id, nodes@.len() as nat),
{
    let ghost v = node_views(nodes@);
    let mut cur = m;
    let mut fuel = nodes.len();
    loop
        invariant
            v == node_views(nodes@),
            cur < nodes@.len(),
            fuel <= nodes@.len(),
            within(v, m as int, id, nodes@.len() as nat) == within(v, cur as int, id, fuel as nat),
        decreases fuel,
    {
        if fuel == 0 {
            return false;
        }
        if nodes[cur].id == id {
            return true;
        }
        match nodes[cur].parent {
            None => {
                return false;
            },
            Some(p) => match position_in(nodes, p) {
                None => {
                    return false;
                },
                Some(j) => {
                    cur = j;
                    fuel = fuel - 1;
                },
            },
        }
    }
}

/// The node at position `a` holds an `image` element.
fn holds_image_at(nodes: &Vec<XmlNode>, a: usize) -> (r: bool)
    requires
        a < nodes@.len(),
    ensures
        r == holds_image(node_views(nodes@), a as int),
{
    let ghost v = node_views(nodes@);
    let id = nodes[a].id;
    let mut m: usize = 0;
    while m < nodes.len()
        invariant
            v == node_views(nodes@),
            a < nodes@.len(),
            id == v[a as int].id,
            m <= nodes@.len(),
            forall|j: int|
                0 <= j < m ==> !(v[j].is_element && v[j].tag_name == "image"@ && #[trigger] within(
                    v,
                    j,
                    id,
                    v.len(),
                )),
        decreases nodes@.len() - m,
    {
        if nodes[m].is_element && is_literal(nodes[m].tag_name.as_str(), "image") && node_within(nodes, m, id) {
            return true;
        }
        m = m + 1;
    }
    false
}

/// The node at position `a` is a clip path to rewrite.
fn is_clip_target_at(nodes: &Vec<XmlNode>, a: usize) -> (r: bool)
    requires
        a < nodes@.len(),
    ensures
        r == is_clip_target(node_views(nodes@), a as int),
{
    nodes[a].is_element && is_literal(nodes[a].tag_name.as_str(), "clipPath") && nodes[a].id_attr.is_some()
        && holds_image_at(nodes, a)
}

/// The positions of the clip paths to rewrite, in the order of rewriting.
fn clip_path_order(nodes: &Vec<XmlNode>) -> (order: Vec<usize>)
    ensures
        targets_at(node_views(nodes@), order@) == sort_by(
            clip_targets(node_views(nodes@), nodes@.len() as int),
            later_first_order(),
        ),
        forall|k: int| 0 <= k < order@.len() ==> #[trigger] order@[k] < nodes@.len(),
        forall|k: int| 0 <= k < order@.len() ==> is_clip_target(node_views(nodes@), #[trigger] order@[k] as int),
{
    let ghost v = node_views(nodes@);
    let ghost lt = later_first_order();
    let mut order: Vec<usize> = Vec::new();
    let mut i: usize = 0;
    while i < nodes.len()
        invariant
            v == node_views(nodes@),
            lt == later_first_order(),
            i <= nodes@.len(),
            targets_at(v, order@) == sort_by(clip_targets(v, i as int), lt),
            forall|k: int| 0 <= k < order@.len() ==> #[trigger] order@[k] < i,
            forall|k: int| 0 <= k < order@.len() ==> is_clip_target(v, #[trigger] order@[k] as int),
        decreases nodes@.len() - i,
    {
        if is_clip_target_at(nodes, i) {
            let ghost ts = targets_at(v, order@);
            let ghost x = target_at(v, i as int);
            let mut p: usize = 0;
            while p < order.len() && !(nodes[order[p]].start < nodes[i].start)
                invariant
                    v == node_views(nodes@),
                    lt == later_first_order(),
                    i < nodes@.len(),
                    ts == targets_at(v, order@),
                    x == target_at(v, i as int),
                    p <= order@.len(),
                    forall|k: int| 0 <= k < order@.len() ==> #[trigger] order@[k] < i,
                    forall|k: int| 0 <= k < order@.len() ==> is_clip_target(v, #[trigger] order@[k] as int),
                    is_clip_target(v, i as int),
                    forall|k: int| 0 <= k < p ==> !lt(x, #[trigger] ts[k]),
                decreases order@.len() - p,
            {
                proof {
                    assert(ts[p as int] == target_at(v, order@[p as int] as int));
                }
                p = p + 1;
            }
            proof {
                if p < order@.len() {
                    assert(ts[p as int] == target_at(v, order@[p as int] as int));
                    assert(lt(x, ts[p as int]));
                }
                lemma_insert_sorted_at(ts, x, lt, p as int);
                let c = clip_targets(v, i as int);
                assert(clip_targets(v, i + 1) == c + seq![x]);
                assert((c + seq![x]).drop_last() =~= c);
                assert(targets_at(v, order@.insert(p as int, i)) =~= ts.take(p as int) + seq![x] + ts.skip(p as int));
            }
            order.insert(p, i);
        } else {
            proof {
                assert(clip_targets(v, i + 1) =~= clip_targets(v, i as int));
            }
        }
        i = i + 1;
    }
    order
}

// ---------------------------------------------------------------------------
// Rewriting the text
// ---------------------------------------------------------------------------

/// The element between `start` and `end` rewritten from a clip path into a mask.
fn rewrite_element_bytes(text: &[u8], start: usize, end: usize) -> (r: Vec<u8>)
    ensures
        r@ == rewrite_element(text@, start as int, end as int),
{
    let mut out: Vec<u8> = Vec::new();
    if !(start <= end && end <= text.len()) {
        push_all(&mut out, text);
        proof {
            assert(out@ =~= text@);
        }
        return out;
    }
    let element = vstd::slice::slice_subrange(text, start, end);
    let open_end = find_bytes(element, ">".as_bytes());
    let close_start = rfind_bytes(element, "</clipPath>".as_bytes());
    match (open_end, close_start) {
        (Some(o), Some(c)) => {
            proof {
                lemma_rfind_from_bounds(element@, lit("</clipPath>"), element@.len() - lit("</clipPath>").len());
            }
            if o < c {
                let opening = vstd::slice::slice_subrange(element, 0, o + 1);
                let inner = vstd::slice::slice_subrange(element, o + 1, c);
                let first = replace_first_bytes(
                    opening,
                    "<clipPath".as_bytes(),
                    "<mask mask-type=\"alpha\" maskUnits=\"userSpaceOnUse\" maskContentUnits=\"userSpaceOnUse\"".as_bytes(),
                );
                let new_opening = replace_first_bytes(first.as_slice(), "<clipPath:".as_bytes(), "<mask:".as_bytes());
                push_range(&mut out, text, 0, start);
                push_all(&mut out, new_opening.as_slice());
                push_all(&mut out, inner);
                push_all(&mut out, "</mask>".as_bytes());
                push_range(&mut out, text, end, text.len());
                proof {
                    assert(opening@ =~= element@.take(o + 1));
                    assert(text@.subrange(0, start as int) =~= text@.take(start as int));
                    assert(text@.subrange(end as int, text@.len() as int) =~= text@.skip(end as int));
                }
            } else {
                push_all(&mut out, text);
                proof {
                    assert(out@ =~= text@);
                }
            }
        },
        _ => {
            push_all(&mut out, text);
            proof {
                assert(out@ =~= text@);
            }
        },
    }
    out
}

/// `prefix`, then `id`, then `suffix`.
fn pattern(prefix: &str, id: &str, suffix: &str) -> (r: Vec<u8>)
    ensures
        r@ == lit(prefix) + encode_utf8(id@) + lit(suffix),
{
    let mut out: Vec<u8> = Vec::new();
    push_all(&mut out, prefix.as_bytes());
    push_all(&mut out, id.as_bytes());
    push_all(&mut out, suffix.as_bytes());
    proof {
        assert(out@ =~= lit(prefix) + encode_utf8(id@) + lit(suffix));
    }
    out
}

/// Turns every reference to the clip path `id` into a reference to the mask.
fn rewrite_references_bytes(text: &[u8], id: &str) -> (r: Vec<u8>)
    ensures
        r@ == rewrite_references(text@, id@),
{
    let t1 = replace_all_bytes(
        text,
        pattern("clip-path=\"url(#", id, ")\"").as_slice(),
        pattern("mask=\"url(#", id, ")\"").as_slice(),
    );
    let t2 = replace_all_bytes(
        t1.as_slice(),
        pattern("clip-path='url(#", id, ")'").as_slice(),
        pattern("mask='url(#", id, ")'").as_slice(),
    );
    replace_all_bytes(
        t2.as_slice(),
        pattern("clip-path:url(#", id, ")").as_slice(),
        pattern("mask:url(#", id, ")").as_slice(),
    )
}

/// Rewrites, in `svg_data`, every `clipPath` element among `nodes` that holds
/// an `image` element into an alpha mask, and every reference to it into a
/// reference to the mask; `nodes` are the nodes of the document's parse.
pub fn rewrite_clip_paths(svg_data: &[u8], nodes: &Vec<XmlNode>) -> (r: Vec<u8>)
    ensures
        r@ == rewritten_with(svg_data@, node_views(nodes@)),
{
    let ghost v = node_views(nodes@);
    let mut text: Vec<u8> = Vec::new();
    push_all(&mut text, svg_data);
    proof {
        assert(text@ =~= svg_data@);
    }
    let order = clip_path_order(nodes);
    let ghost targets = targets_at(v, order@);
    if order.len() == 0 {
        return text;
    }
    let mut k: usize = 0;
    proof {
        assert(targets.take(0) =~= Seq::<ClipTarget>::empty());
    }
    while k < order.len()
        invariant
            v == node_views(nodes@),
            targets == targets_at(v, order@),
            k <= order@.len(),
            forall|j: int| 0 <= j < order@.len() ==> #[trigger] order@[j] < nodes@.len(),
            text@ == rewrite_elements(svg_data@, targets.take(k as int)),
        decreases order@.len() - k,
    {
        let j = order[k];
        text = rewrite_element_bytes(text.as_slice(), nodes[j].start, nodes[j].end);
        proof {
            assert(targets.take(k + 1).drop_last() =~= targets.take(k as int));
            assert(targets.take(k + 1).last() == target_at(v, j as int));
        }
        k = k + 1;
    }
    proof {
        assert(targets.take(order@.len() as int) =~= targets);
    }
    let ghost elements_done = text@;
    k = 0;
    proof {
        assert(targets.take(0) =~= Seq::<ClipTarget>::empty());
    }
    while k < order.len()
        invariant
            v == node_views(nodes@),
            targets == targets_at(v, order@),
            k <= order@.len(),
            forall|j: int| 0 <= j < order@.len() ==> #[trigger] order@[j] < nodes@.len(),
            forall|j: int| 0 <= j < order@.len() ==> is_clip_target(v, #[trigger] order@[j] as int),
            text@ == rewrite_all_references(elements_done, targets.take(k as int)),
        decreases order@.len() - k,
    {
        let j = order[k];
        match &nodes[j].id_attr {
            Some(id) => {
                text = rewrite_references_bytes(text.as_slice(), id.as_str());
            },
            None => {
                proof {
                    assert(is_clip_target(v, order@[k as int] as int));
                }
            },
        }
        proof {
            assert(targets.take(k + 1).drop_last() =~= targets.take(k as int));
            assert(targets.take(k + 1).last() == target_at(v, j as int));
        }
        k = k + 1;
    }
    proof {
        assert(targets.take(order@.len() as int) =~= targets);
    }
    text
}

/// Rewrites every `clipPath` element that holds a raster image into an alpha
/// mask, and every reference to it into a reference to the mask. The input is
/// handed back unchanged when it is not UTF-8 or does not parse as XML.
pub fn preprocess_svg(svg_data: &[u8]) -> (r: Vec<u8>)
    ensures
        r@ == preprocessed(svg_data@),
{
    let source = match utf8_text(svg_data) {
        Some(s) => s,
        None => {
            let mut unchanged: Vec<u8> = Vec::new();
            push_all(&mut unchanged, svg_data);
            proof {
                assert(unchanged@ =~= svg_data@);
            }
            return unchanged;
        },
    };
    proof {
        vstd::utf8::encode_utf8_decode_utf8(source@);
    }
    match parse_xml_nodes(source) {
        Some(nodes) => rewrite_clip_paths(svg_data, &nodes),
        None => {
            let mut unchanged: Vec<u8> = Vec::new();
            push_all(&mut unchanged, svg_data);
            proof {
                assert(unchanged@ =~= svg_data@);
            }
            unchanged
        },
    }
}

/// A document comes back unchanged when it is not UTF-8, does not parse as
/// XML, or has no `clipPath` element with an `id` that holds an image.
pub proof fn lemma_preprocess_keeps_other_documents(data: Seq<u8>)
    requires
        !valid_utf8(data) || parsed_xml(decode_utf8(data)) is None || (parsed_xml(decode_utf8(data)) matches Some(
            nodes,
        ) && clip_targets(nodes, nodes.len() as int).len() == 0),
    ensures
        preprocessed(data) == data,
{
    if valid_utf8(data) {
        if let Some(nodes) = parsed_xml(decode_utf8(data)) {
            lemma_sort_by_len(clip_targets(nodes, nodes.len() as int), later_first_order());
        }
    }
}

} // verus!
