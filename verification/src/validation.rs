//! Analysis of a parsed SVG document before conversion: features that force a
//! raster fallback, and the fonts that its text asks for.

use vstd::prelude::*;

use crate::converter::paint::{
    gradient_is_natively_supported, spec_gradient_is_natively_supported, SpreadMethod,
};
use crate::converter::filter::{add_all_unique, add_unique, filters_are_supported, push_unique};
use crate::tex_engine::is_literal;
use crate::text::{
    decimal, join, join_strings, lemma_sorted_keys, lemma_str_lt_strict, lemma_str_lt_total, lowercase,
    push_decimal, sorted_keys, sorted_strings, str_lt,
    to_lowercase, views,
};

verus! {

/// Describes one distinct font request observed while traversing SVG text.
#[derive(Debug, Clone, PartialEq, Eq, Hash)]
pub struct TextFontRequirement {
    pub families: Vec<String>,
    pub style: String,
    pub stretch: String,
    pub weight: u16,
}

/// A font request as values.
pub struct RequirementView {
    pub families: Seq<Seq<char>>,
    pub style: Seq<char>,
    pub stretch: Seq<char>,
    pub weight: u16,
}

impl View for TextFontRequirement {
    type V = RequirementView;

    open spec fn view(&self) -> RequirementView {
        RequirementView {
            families: views(self.families@),
            style: self.style@,
            stretch: self.stretch@,
            weight: self.weight,
        }
    }
}

/// The views of a sequence of font requests.
pub open spec fn requirement_views(rs: Seq<TextFontRequirement>) -> Seq<RequirementView> {
    rs.map_values(|r: TextFontRequirement| r@)
}

/// The diagnostic description of a font request.
pub open spec fn requirement_summary(r: RequirementView) -> Seq<char> {
    "families=["@ + join(r.families, ", "@) + "], style="@ + r.style + ", stretch="@
        + r.stretch + ", weight="@ + decimal(r.weight as nat)
}

/// The prefix that marks a family requested by name.
pub open spec fn named_prefix() -> Seq<char> {
    "named:"@
}

/// The family name behind a `named:` entry, if the entry is one.
pub open spec fn named_family(f: Seq<char>) -> Option<Seq<char>> {
    if f.len() >= named_prefix().len() && f.take(named_prefix().len() as int) == named_prefix() {
        Some(f.skip(named_prefix().len() as int))
    } else {
        None
    }
}

/// The families requested by name, in order.
pub open spec fn named_families_of(families: Seq<Seq<char>>) -> Seq<Seq<char>>
    decreases families.len(),
{
    if families.len() == 0 {
        Seq::empty()
    } else {
        named_families_of(families.drop_last()) + match named_family(families.last()) {
            Some(n) => seq![n],
            None => Seq::empty(),
        }
    }
}

/// The named families of all requests, request by request.
pub open spec fn all_named_families(reqs: Seq<RequirementView>) -> Seq<Seq<char>>
    decreases reqs.len(),
{
    if reqs.len() == 0 {
        Seq::empty()
    } else {
        all_named_families(reqs.drop_last()) + named_families_of(reqs.last().families)
    }
}

/// The lowercase forms of the loaded family names.
pub open spec fn lowered(names: Seq<Seq<char>>) -> Seq<Seq<char>> {
    names.map_values(|n: Seq<char>| lowercase(n))
}

/// The named families whose lowercase form is not among `loaded_lower`, in order.
pub open spec fn not_loaded(families: Seq<Seq<char>>, loaded_lower: Seq<Seq<char>>) -> Seq<Seq<char>>
    decreases families.len(),
{
    if families.len() == 0 {
        Seq::empty()
    } else {
        not_loaded(families.drop_last(), loaded_lower) + if loaded_lower.contains(
            lowercase(families.last()),
        ) {
            Seq::empty()
        } else {
            seq![families.last()]
        }
    }
}

/// A sequence with each run of equal neighbours reduced to one element.
pub open spec fn dedup(s: Seq<Seq<char>>) -> Seq<Seq<char>>
    decreases s.len(),
{
    if s.len() == 0 {
        s
    } else {
        let d = dedup(s.drop_last());
        if d.len() > 0 && d.last() == s.last() {
            d
        } else {
            d.push(s.last())
        }
    }
}

/// The named families that no loaded face provides (compared without case),
/// sorted and without repeats.
pub open spec fn missing_families(reqs: Seq<RequirementView>, loaded: Seq<Seq<char>>) -> Seq<Seq<char>> {
    dedup(sorted_keys(not_loaded(all_named_families(reqs), lowered(loaded))))
}

impl TextFontRequirement {
    /// Formats a stable, human-readable description for diagnostics.
    pub fn summary(&self) -> (r: String)
        ensures
            r@ == requirement_summary(self@),
    {
        let mut r = String::new();
        r.append("families=[");
        let families = join_strings(self.families.as_slice(), ", ");
        r.append(families.as_str());
        r.append("], style=");
        r.append(self.style.as_str());
        r.append(", stretch=");
        r.append(self.stretch.as_str());
        r.append(", weight=");
        push_decimal(&mut r, self.weight as u64);
        proof {
            assert(r@ =~= requirement_summary(self@));
        }
        r
    }

    /// The families requested by name (the `named:` entries without the prefix).
    pub fn named_families(&self) -> (r: Vec<String>)
        ensures
            views(r@) == named_families_of(views(self.families@)),
    {
        let mut r: Vec<String> = Vec::new();
        let ghost fams = views(self.families@);
        let mut i: usize = 0;
        while i < self.families.len()
            invariant
                fams == views(self.families@),
                i <= self.families@.len(),
                views(r@) == named_families_of(fams.take(i as int)),
            decreases self.families@.len() - i,
        {
            let f = self.families[i].as_str();
            let stripped = strip_named_prefix(f);
            let ghost before = r@;
            match stripped {
                Some(name) => {
                    r.push(name);
                },
                None => {},
            }
            proof {
                assert(fams.take(i + 1).drop_last() =~= fams.take(i as int));
                assert(fams.take(i + 1).last() == f@);
                assert(views(r@) =~= named_families_of(fams.take(i + 1)));
            }
            i = i + 1;
        }
        proof {
            assert(fams.take(i as int) =~= fams);
        }
        r
    }

    /// The request made of families, style, stretch and weight as found on a text span.
    pub fn from_font(families: &Vec<FontFamily>, style: FontStyle, stretch: FontStretch, weight: u16) -> (r: TextFontRequirement)
        ensures
            views(r.families@) == families@.map_values(|f: FontFamily| font_family_label(f)),
            r.style@ == font_style_label(style),
            r.stretch@ == font_stretch_label(stretch),
            r.weight == weight,
    {
        let mut names: Vec<String> = Vec::new();
        let mut i: usize = 0;
        while i < families.len()
            invariant
                i <= families@.len(),
                views(names@) == families@.take(i as int).map_values(|f: FontFamily| font_family_label(f)),
            decreases families@.len() - i,
        {
            let name = font_family_name(&families[i]);
            let ghost before = names@;
            names.push(name);
            proof {
                assert(views(names@) =~= views(before).push(name@));
                assert(families@.take(i + 1).map_values(|f: FontFamily| font_family_label(f))
                    =~= families@.take(i as int).map_values(|f: FontFamily| font_family_label(f)).push(
                    font_family_label(families@[i as int]),
                ));
            }
            i = i + 1;
        }
        proof {
            assert(families@.take(i as int) =~= families@);
        }
        TextFontRequirement {
            families: names,
            style: font_style_name(style),
            stretch: font_stretch_name(stretch),
            weight,
        }
    }
}

/// The text after `named:`, when `f` starts with it.
fn strip_named_prefix(f: &str) -> (r: Option<String>)
    ensures
        match named_family(f@) {
            Some(n) => r matches Some(s) && s@ == n,
            None => r is None,
        },
{
    proof {
        reveal_strlit("named:");
    }
    let n = f.unicode_len();
    if n >= 6 {
        let head = f.substring_char(0, 6);
        if is_literal(head, "named:") {
            let rest = f.substring_char(6, n);
            return Some(rest.to_owned());
        }
    }
    None
}

/// Two requests are the same: same families in the same order, same style,
/// stretch and weight.
fn same_requirement(a: &TextFontRequirement, b: &TextFontRequirement) -> (r: bool)
    ensures
        r == (a@ == b@),
{
    if a.families.len() != b.families.len() {
        proof {
            assert(views(a.families@).len() != views(b.families@).len());
        }
        return false;
    }
    let mut i: usize = 0;
    while i < a.families.len()
        invariant
            a.families@.len() == b.families@.len(),
            i <= a.families@.len(),
            forall|k: int| 0 <= k < i ==> a.families@[k]@ == b.families@[k]@,
        decreases a.families@.len() - i,
    {
        if a.families[i] != b.families[i] {
            proof {
                assert(views(a.families@)[i as int] != views(b.families@)[i as int]);
            }
            return false;
        }
        i = i + 1;
    }
    proof {
        assert(views(a.families@) =~= views(b.families@));
    }
    a.style == b.style && a.stretch == b.stretch && a.weight == b.weight
}

/// A copy of a font request with the same contents.
fn copy_requirement(r: &TextFontRequirement) -> (c: TextFontRequirement)
    ensures
        c@ == r@,
{
    let mut families: Vec<String> = Vec::new();
    let mut i: usize = 0;
    while i < r.families.len()
        invariant
            i <= r.families@.len(),
            views(families@) == views(r.families@).take(i as int),
        decreases r.families@.len() - i,
    {
        let ghost before = families@;
        families.push(r.families[i].clone());
        proof {
            assert(views(families@) =~= views(before).push(r.families@[i as int]@));
            assert(views(r.families@).take(i + 1) =~= views(r.families@).take(i as int).push(r.families@[i as int]@));
        }
        i = i + 1;
    }
    proof {
        assert(views(r.families@).take(i as int) =~= views(r.families@));
    }
    TextFontRequirement {
        families,
        style: r.style.clone(),
        stretch: r.stretch.clone(),
        weight: r.weight,
    }
}

// ---------------------------------------------------------------------------
// Fonts as found on text spans
// ---------------------------------------------------------------------------

/// A font family as requested by SVG text.
pub enum FontFamily {
    Named(String),
    Serif,
    SansSerif,
    Cursive,
    Fantasy,
    Monospace,
}

/// The label recorded for a requested family.
pub open spec fn font_family_label(f: FontFamily) -> Seq<char> {
    match f {
        FontFamily::Named(name) => "named:"@ + name@,
        FontFamily::Serif => "generic:serif"@,
        FontFamily::SansSerif => "generic:sans-serif"@,
        FontFamily::Cursive => "generic:cursive"@,
        FontFamily::Fantasy => "generic:fantasy"@,
        FontFamily::Monospace => "generic:monospace"@,
    }
}

/// The label recorded for a requested family.
pub fn font_family_name(family: &FontFamily) -> (r: String)
    ensures
        r@ == font_family_label(*family),
{
    match family {
        FontFamily::Named(name) => {
            let mut r = String::new();
            r.append("named:");
            r.append(name.as_str());
            r
        },
        FontFamily::Serif => "generic:serif".to_owned(),
        FontFamily::SansSerif => "generic:sans-serif".to_owned(),
        FontFamily::Cursive => "generic:cursive".to_owned(),
        FontFamily::Fantasy => "generic:fantasy".to_owned(),
        FontFamily::Monospace => "generic:monospace".to_owned(),
    }
}

/// The slant of a requested font.
#[derive(Clone, Copy, PartialEq, Eq, Structural)]
pub enum FontStyle {
    Normal,
    Italic,
    Oblique,
}

/// The lowercase name of a slant.
pub open spec fn font_style_label(s: FontStyle) -> Seq<char> {
    match s {
        FontStyle::Normal => "normal"@,
        FontStyle::Italic => "italic"@,
        FontStyle::Oblique => "oblique"@,
    }
}

fn font_style_name(s: FontStyle) -> (r: String)
    ensures
        r@ == font_style_label(s),
{
    match s {
        FontStyle::Normal => "normal".to_owned(),
        FontStyle::Italic => "italic".to_owned(),
        FontStyle::Oblique => "oblique".to_owned(),
    }
}

/// The width of a requested font.
#[derive(Clone, Copy, PartialEq, Eq, Structural)]
pub enum FontStretch {
    UltraCondensed,
    ExtraCondensed,
    Condensed,
    SemiCondensed,
    Normal,
    SemiExpanded,
    Expanded,
    ExtraExpanded,
    UltraExpanded,
}

/// The lowercase name of a width.
pub open spec fn font_stretch_label(s: FontStretch) -> Seq<char> {
    match s {
        FontStretch::UltraCondensed => "ultracondensed"@,
        FontStretch::ExtraCondensed => "extracondensed"@,
        FontStretch::Condensed => "condensed"@,
        FontStretch::SemiCondensed => "semicondensed"@,
        FontStretch::Normal => "normal"@,
        FontStretch::SemiExpanded => "semiexpanded"@,
        FontStretch::Expanded => "expanded"@,
        FontStretch::ExtraExpanded => "extraexpanded"@,
        FontStretch::UltraExpanded => "ultraexpanded"@,
    }
}

fn font_stretch_name(s: FontStretch) -> (r: String)
    ensures
        r@ == font_stretch_label(s),
{
    match s {
        FontStretch::UltraCondensed => "ultracondensed".to_owned(),
        FontStretch::ExtraCondensed => "extracondensed".to_owned(),
        FontStretch::Condensed => "condensed".to_owned(),
        FontStretch::SemiCondensed => "semicondensed".to_owned(),
        FontStretch::Normal => "normal".to_owned(),
        FontStretch::SemiExpanded => "semiexpanded".to_owned(),
        FontStretch::Expanded => "expanded".to_owned(),
        FontStretch::ExtraExpanded => "extraexpanded".to_owned(),
        FontStretch::UltraExpanded => "ultraexpanded".to_owned(),
    }
}

// ---------------------------------------------------------------------------
// The document tree as the analysis reads it
// ---------------------------------------------------------------------------

/// How a path is painted.
#[derive(Clone, Copy, PartialEq, Eq, Structural)]
pub enum PaintKind {
    Color,
    LinearGradient(SpreadMethod),
    RadialGradient(SpreadMethod),
    Pattern,
}

/// A node of the parsed document, holding what the analysis looks at: the
/// paints of paths, whether groups are filtered, and for text the font
/// request of each span and the paths that the text is flattened into.
pub enum SvgNode {
    Path { fill: Option<PaintKind>, stroke: Option<PaintKind> },
    Group { has_filters: bool, children: Vec<SvgNode> },
    Image,
    Text { span_fonts: Vec<TextFontRequirement>, flattened: Vec<SvgNode> },
}

/// Metadata collected from the parsed document.
pub struct TreeAnalysis {
    pub has_text_nodes: bool,
    pub unsupported_features: Vec<String>,
    pub text_font_requirements: Vec<TextFontRequirement>,
}

/// The analysis as values.
#[verifier::ext_equal]
pub struct AnalysisState {
    pub has_text: bool,
    pub features: Seq<Seq<char>>,
    pub requirements: Seq<RequirementView>,
}

/// The state of an analysis.
pub open spec fn analysis_state(a: TreeAnalysis) -> AnalysisState {
    AnalysisState {
        has_text: a.has_text_nodes,
        features: views(a.unsupported_features@),
        requirements: requirement_views(a.text_font_requirements@),
    }
}

/// The feature reported for a paint that must be rasterized.
pub open spec fn paint_features(paint: Option<PaintKind>, context: Seq<char>) -> Seq<Seq<char>> {
    match paint {
        Some(PaintKind::LinearGradient(spread)) => if spec_gradient_is_natively_supported(spread) {
            Seq::empty()
        } else {
            seq![context + " linear gradients"@]
        },
        Some(PaintKind::RadialGradient(spread)) => if spec_gradient_is_natively_supported(spread) {
            Seq::empty()
        } else {
            seq![context + " radial gradients"@]
        },
        _ => Seq::empty(),
    }
}

/// The features of a node itself (not of its descendants) that force a raster
/// fallback, in order (fill before stroke).
pub open spec fn node_features(node: SvgNode) -> Seq<Seq<char>> {
    match node {
        SvgNode::Path { fill, stroke } => paint_features(fill, "fill"@) + paint_features(
            stroke,
            "stroke"@,
        ),
        SvgNode::Group { has_filters, .. } => if has_filters && !spec_filters_are_supported() {
            seq!["filters"@]
        } else {
            Seq::empty()
        },
        _ => Seq::empty(),
    }
}

/// Every filter graph is supported, natively or through rasterization.
pub open spec fn spec_filters_are_supported() -> bool {
    true
}

/// `list` with `r` appended unless an equal request is present.
pub open spec fn add_requirement(list: Seq<RequirementView>, r: RequirementView) -> Seq<RequirementView> {
    if list.contains(r) {
        list
    } else {
        list.push(r)
    }
}

/// `add_requirement` of each of `rs` in turn.
pub open spec fn add_requirements(list: Seq<RequirementView>, rs: Seq<RequirementView>) -> Seq<RequirementView>
    decreases rs.len(),
{
    if rs.len() == 0 {
        list
    } else {
        add_requirement(add_requirements(list, rs.drop_last()), rs.last())
    }
}

/// Analysing a node: record its own features, then for a group its children;
/// for text mark that text exists, record each span's font request and then
/// the flattened paths.
pub open spec fn analyze_node(node: SvgNode, s: AnalysisState) -> AnalysisState
    decreases node,
{
    let s1 = AnalysisState { features: add_all_unique(s.features, node_features(node)), ..s };
    match node {
        SvgNode::Group { children, .. } => analyze_nodes(children@, s1),
        SvgNode::Text { span_fonts, flattened } => analyze_nodes(
            flattened@,
            AnalysisState {
                has_text: true,
                requirements: add_requirements(s1.requirements, requirement_views(span_fonts@)),
                ..s1
            },
        ),
        _ => s1,
    }
}

/// Analysing nodes one after the other.
pub open spec fn analyze_nodes(nodes: Seq<SvgNode>, s: AnalysisState) -> AnalysisState
    decreases nodes,
{
    if nodes.len() == 0 {
        s
    } else {
        analyze_node(nodes.last(), analyze_nodes(nodes.drop_last(), s))
    }
}

/// The state of a fresh analysis.
pub open spec fn empty_analysis() -> AnalysisState {
    AnalysisState { has_text: false, features: Seq::empty(), requirements: Seq::empty() }
}

/// Appends `feature` to the analysis's features unless it is there already.
pub fn push_feature(analysis: &mut TreeAnalysis, feature: &str)
    ensures
        analysis_state(*final(analysis)) == (AnalysisState {
            features: add_unique(analysis_state(*old(analysis)).features, feature@),
            ..analysis_state(*old(analysis))
        }),
{
    push_unique(&mut analysis.unsupported_features, feature);
}

/// Appends `feature` to `features` unless it is there already.
pub fn push_feature_name(features: &mut Vec<String>, feature: &str)
    ensures
        views(final(features)@) == add_unique(views(old(features)@), feature@),
{
    push_unique(features, feature);
}

fn collect_paint_features(paint: Option<PaintKind>, context: &str, features: &mut Vec<String>)
    ensures
        views(final(features)@) == add_all_unique(views(old(features)@), paint_features(paint, context@)),
{
    match paint {
        Some(PaintKind::LinearGradient(spread)) => {
            if !gradient_is_natively_supported(spread) {
                let mut f = String::new();
                f.append(context);
                f.append(" linear gradients");
                push_feature_name(features, f.as_str());
                proof {
                    assert(seq![f@].drop_last() =~= Seq::<Seq<char>>::empty());
                }
            }
        },
        Some(PaintKind::RadialGradient(spread)) => {
            if !gradient_is_natively_supported(spread) {
                let mut f = String::new();
                f.append(context);
                f.append(" radial gradients");
                push_feature_name(features, f.as_str());
                proof {
                    assert(seq![f@].drop_last() =~= Seq::<Seq<char>>::empty());
                }
            }
        },
        _ => {},
    }
}

proof fn lemma_add_all_unique_concat(list: Seq<Seq<char>>, a: Seq<Seq<char>>, b: Seq<Seq<char>>)
    ensures
        add_all_unique(list, a + b) == add_all_unique(add_all_unique(list, a), b),
    decreases b.len(),
{
    if b.len() == 0 {
        assert(a + b =~= a);
    } else {
        lemma_add_all_unique_concat(list, a, b.drop_last());
        assert((a + b).drop_last() =~= a + b.drop_last());
    }
}

/// Records the features of `node` itself that force a raster fallback.
fn collect_direct_features(node: &SvgNode, embed_images: bool, features: &mut Vec<String>)
    ensures
        views(final(features)@) == add_all_unique(views(old(features)@), node_features(*node)),
{
    match node {
        SvgNode::Path { fill, stroke } => {
            let ghost start = views(features@);
            collect_paint_features(*fill, "fill", features);
            collect_paint_features(*stroke, "stroke", features);
            proof {
                lemma_add_all_unique_concat(start, paint_features(*fill, "fill"@), paint_features(*stroke, "stroke"@));
            }
        },
        SvgNode::Group { has_filters, .. } => {
            if *has_filters && !filters_are_supported() {
                push_feature_name(features, "filters");
            }
            proof {
                assert(seq!["filters"@].drop_last() =~= Seq::<Seq<char>>::empty());
            }
        },
        _ => {},
    }
}

/// Every element added is in the result, and so is everything that was there.
proof fn lemma_add_all_unique_contains(list: Seq<Seq<char>>, xs: Seq<Seq<char>>)
    ensures
        forall|x: Seq<char>| xs.contains(x) || list.contains(x) ==> #[trigger] add_all_unique(list, xs).contains(x),
    decreases xs.len(),
{
    if xs.len() > 0 {
        lemma_add_all_unique_contains(list, xs.drop_last());
        let inner = add_all_unique(list, xs.drop_last());
        assert forall|x: Seq<char>| xs.contains(x) || list.contains(x) implies #[trigger] add_all_unique(list, xs).contains(x) by {
            if x == xs.last() {
                if !inner.contains(x) {
                    assert(inner.push(x)[inner.len() as int] == x);
                }
            } else {
                if xs.contains(x) {
                    let k = choose|k: int| 0 <= k < xs.len() && xs[k] == x;
                    assert(xs.drop_last()[k] == x);
                }
                assert(inner.contains(x));
                if !inner.contains(xs.last()) {
                    let k = choose|k: int| 0 <= k < inner.len() && inner[k] == x;
                    assert(inner.push(xs.last())[k] == x);
                }
            }
        }
    }
}

/// Adding the first occurrences of `xs` adds the same as adding all of `xs`.
proof fn lemma_add_all_unique_dedup(list: Seq<Seq<char>>, xs: Seq<Seq<char>>)
    ensures
        add_all_unique(list, add_all_unique(Seq::empty(), xs)) == add_all_unique(list, xs),
    decreases xs.len(),
{
    if xs.len() > 0 {
        let xs0 = xs.drop_last();
        let x = xs.last();
        let d = add_all_unique(Seq::empty(), xs0);
        lemma_add_all_unique_dedup(list, xs0);
        if d.contains(x) {
            // x already occurs in xs0, so it is already in the result for xs0
            assert(xs0.contains(x)) by {
                lemma_dedup_subset(xs0, x);
            }
            lemma_add_all_unique_contains(list, xs0);
        } else {
            assert(add_unique(d, x) == d.push(x));
            assert(d.push(x).drop_last() =~= d);
        }
    }
}

/// What is added only comes from the added elements or the list.
proof fn lemma_dedup_subset(xs: Seq<Seq<char>>, x: Seq<char>)
    requires
        add_all_unique(Seq::empty(), xs).contains(x),
    ensures
        xs.contains(x),
    decreases xs.len(),
{
    if xs.len() > 0 {
        let d = add_all_unique(Seq::empty(), xs.drop_last());
        if x == xs.last() {
            assert(xs[xs.len() - 1] == x);
        } else {
            if !d.contains(xs.last()) {
                let k = choose|k: int| 0 <= k < d.push(xs.last()).len() && d.push(xs.last())[k] == x;
                assert(k < d.len());
                assert(d[k] == x);
            }
            assert(d.contains(x));
            lemma_dedup_subset(xs.drop_last(), x);
            let k = choose|k: int| 0 <= k < xs.drop_last().len() && xs.drop_last()[k] == x;
            assert(xs[k] == x);
        }
    } else {
        assert(add_all_unique(Seq::<Seq<char>>::empty(), xs) =~= Seq::<Seq<char>>::empty());
    }
}

/// Lists the unsupported features that force raster fallback for this node.
pub fn node_unsupported_features(node: &SvgNode, embed_images: bool) -> (r: Vec<String>)
    ensures
        views(r@) == add_all_unique(Seq::empty(), node_features(*node)),
{
    let mut features: Vec<String> = Vec::new();
    proof {
        assert(views(features@) =~= Seq::<Seq<char>>::empty());
    }
    collect_direct_features(node, embed_images, &mut features);
    features
}

/// Checks whether the converter must fall back to rasterization for this node.
pub fn node_requires_raster(node: &SvgNode, embed_images: bool) -> (r: bool)
    ensures
        r == (add_all_unique(Seq::empty(), node_features(*node)).len() > 0),
{
    let features = node_unsupported_features(node, embed_images);
    features.len() > 0
}

/// Appends a font request unless an equal one is recorded.
pub fn add_text_font_requirement(analysis: &mut TreeAnalysis, requirement: TextFontRequirement)
    ensures
        analysis_state(*final(analysis)) == (AnalysisState {
            requirements: add_requirement(analysis_state(*old(analysis)).requirements, requirement@),
            ..analysis_state(*old(analysis))
        }),
{
    let ghost rs = requirement_views(analysis.text_font_requirements@);
    let mut i: usize = 0;
    while i < analysis.text_font_requirements.len()
        invariant
            *analysis == *old(analysis),
            rs == requirement_views(analysis.text_font_requirements@),
            i <= analysis.text_font_requirements@.len(),
            forall|k: int| 0 <= k < i ==> #[trigger] analysis.text_font_requirements@[k]@ != requirement@,
        decreases analysis.text_font_requirements@.len() - i,
    {
        if same_requirement(&analysis.text_font_requirements[i], &requirement) {
            proof {
                assert(rs[i as int] == requirement@);
                assert(rs.contains(requirement@));
            }
            return;
        }
        i = i + 1;
    }
    proof {
        assert(!rs.contains(requirement@)) by {
            if rs.contains(requirement@) {
                let k = choose|k: int| 0 <= k < rs.len() && rs[k] == requirement@;
                assert(analysis.text_font_requirements@[k]@ == requirement@);
            }
        }
    }
    let ghost before = analysis.text_font_requirements@;
    analysis.text_font_requirements.push(requirement);
    proof {
        assert(requirement_views(analysis.text_font_requirements@) =~= rs.push(requirement@));
    }
}

fn collect_text_font_requirements(span_fonts: &Vec<TextFontRequirement>, analysis: &mut TreeAnalysis)
    ensures
        analysis_state(*final(analysis)) == (AnalysisState {
            requirements: add_requirements(analysis_state(*old(analysis)).requirements, requirement_views(span_fonts@)),
            ..analysis_state(*old(analysis))
        }),
{
    let ghost all = requirement_views(span_fonts@);
    let mut i: usize = 0;
    while i < span_fonts.len()
        invariant
            all == requirement_views(span_fonts@),
            i <= span_fonts@.len(),
            analysis_state(*analysis) == (AnalysisState {
                requirements: add_requirements(analysis_state(*old(analysis)).requirements, all.take(i as int)),
                ..analysis_state(*old(analysis))
            }),
        decreases span_fonts@.len() - i,
    {
        let requirement = copy_requirement(&span_fonts[i]);
        add_text_font_requirement(analysis, requirement);
        proof {
            assert(all.take(i + 1).drop_last() =~= all.take(i as int));
            assert(all.take(i + 1).last() == span_fonts@[i as int]@);
        }
        i = i + 1;
    }
    proof {
        assert(all.take(i as int) =~= all);
    }
}

fn push_features(analysis: &mut TreeAnalysis, features: &Vec<String>)
    ensures
        analysis_state(*final(analysis)) == (AnalysisState {
            features: add_all_unique(analysis_state(*old(analysis)).features, views(features@)),
            ..analysis_state(*old(analysis))
        }),
{
    let ghost all = views(features@);
    let mut i: usize = 0;
    while i < features.len()
        invariant
            all == views(features@),
            i <= features@.len(),
            analysis_state(*analysis) == (AnalysisState {
                features: add_all_unique(analysis_state(*old(analysis)).features, all.take(i as int)),
                ..analysis_state(*old(analysis))
            }),
        decreases features@.len() - i,
    {
        push_feature(analysis, features[i].as_str());
        proof {
            assert(all.take(i + 1).drop_last() =~= all.take(i as int));
        }
        i = i + 1;
    }
    proof {
        assert(all.take(i as int) =~= all);
    }
}

/// Records what `node` and its descendants contribute to the analysis.
fn analyze_subtree(node: &SvgNode, embed_images: bool, analysis: &mut TreeAnalysis)
    ensures
        analysis_state(*final(analysis)) == analyze_node(*node, analysis_state(*old(analysis))),
    decreases node, 1nat,
{
    let features = node_unsupported_features(node, embed_images);
    push_features(analysis, &features);
    proof {
        lemma_add_all_unique_dedup(analysis_state(*old(analysis)).features, node_features(*node));
    }
    match node {
        SvgNode::Group { children, .. } => {
            analyze_children(children, embed_images, analysis);
        },
        SvgNode::Text { span_fonts, flattened } => {
            analysis.has_text_nodes = true;
            collect_text_font_requirements(span_fonts, analysis);
            // Flattened text is a group of paths; it is traversed like any group.
            analyze_children(flattened, embed_images, analysis);
        },
        _ => {},
    }
}

/// Records what each of `nodes` contributes, in order.
fn analyze_children(nodes: &Vec<SvgNode>, embed_images: bool, analysis: &mut TreeAnalysis)
    ensures
        analysis_state(*final(analysis)) == analyze_nodes(nodes@, analysis_state(*old(analysis))),
    decreases nodes, 0nat,
{
    let mut i: usize = 0;
    while i < nodes.len()
        invariant
            i <= nodes@.len(),
            analysis_state(*analysis) == analyze_nodes(nodes@.take(i as int), analysis_state(*old(analysis))),
        decreases nodes@.len() - i,
    {
        proof {
            assert(decreases_to!(nodes => nodes@[i as int]));
        }
        analyze_subtree(&nodes[i], embed_images, analysis);
        proof {
            assert(nodes@.take(i + 1).drop_last() =~= nodes@.take(i as int));
        }
        i = i + 1;
    }
    proof {
        assert(nodes@.take(i as int) =~= nodes@);
    }
}

/// Collects conversion-relevant metadata from the document's top-level nodes.
pub fn analyze_tree(root_children: &Vec<SvgNode>, embed_images: bool) -> (r: TreeAnalysis)
    ensures
        analysis_state(r) == analyze_nodes(root_children@, empty_analysis()),
{
    let mut analysis = TreeAnalysis {
        has_text_nodes: false,
        unsupported_features: Vec::new(),
        text_font_requirements: Vec::new(),
    };
    proof {
        assert(views(analysis.unsupported_features@) =~= Seq::<Seq<char>>::empty());
        assert(requirement_views(analysis.text_font_requirements@) =~= Seq::<RequirementView>::empty());
        assert(analysis_state(analysis) =~= empty_analysis());
    }
    analyze_children(root_children, embed_images, &mut analysis);
    analysis
}

/// `list` holds a string equal to `s`.
fn contains_string(list: &Vec<String>, s: &String) -> (r: bool)
    ensures
        r == views(list@).contains(s@),
{
    let mut i: usize = 0;
    while i < list.len()
        invariant
            i <= list@.len(),
            forall|k: int| 0 <= k < i ==> list@[k]@ != s@,
        decreases list@.len() - i,
    {
        if list[i] == *s {
            proof {
                assert(views(list@)[i as int] == s@);
            }
            return true;
        }
        i = i + 1;
    }
    proof {
        if views(list@).contains(s@) {
            let k = choose|k: int| 0 <= k < views(list@).len() && views(list@)[k] == s@;
            assert(list@[k]@ == s@);
        }
    }
    false
}

/// Keeps the first of each run of equal neighbours.
fn dedup_strings(v: &Vec<String>) -> (r: Vec<String>)
    ensures
        views(r@) == dedup(views(v@)),
{
    let ghost all = views(v@);
    let mut r: Vec<String> = Vec::new();
    let mut i: usize = 0;
    while i < v.len()
        invariant
            all == views(v@),
            i <= v@.len(),
            views(r@) == dedup(all.take(i as int)),
        decreases v@.len() - i,
    {
        let n = r.len();
        let ghost before = r@;
        if n == 0 || r[n - 1] != v[i] {
            r.push(v[i].clone());
            proof {
                assert(views(r@) =~= views(before).push(v@[i as int]@));
            }
        }
        proof {
            assert(all.take(i + 1).drop_last() =~= all.take(i as int));
            assert(all.take(i + 1).last() == v@[i as int]@);
            if n > 0 {
                assert(views(before).last() == before[n - 1]@);
            }
        }
        i = i + 1;
    }
    proof {
        assert(all.take(i as int) =~= all);
    }
    r
}

impl TreeAnalysis {
    /// Returns named font families that were requested by the SVG text but are
    /// not present among the families of the loaded faces (`loaded_families`),
    /// compared without case; sorted, without repeats.
    pub fn missing_named_font_families(&self, loaded_families: &Vec<String>) -> (r: Vec<String>)
        ensures
            views(r@) == missing_families(requirement_views(self.text_font_requirements@), views(loaded_families@)),
    {
        let mut loaded: Vec<String> = Vec::new();
        let mut i: usize = 0;
        while i < loaded_families.len()
            invariant
                i <= loaded_families@.len(),
                views(loaded@) == lowered(views(loaded_families@)).take(i as int),
            decreases loaded_families@.len() - i,
        {
            let l = to_lowercase(loaded_families[i].as_str());
            let ghost before = loaded@;
            loaded.push(l);
            proof {
                assert(views(loaded@) =~= views(before).push(l@));
                assert(lowered(views(loaded_families@)).take(i + 1) =~= lowered(views(loaded_families@)).take(
                    i as int,
                ).push(lowered(views(loaded_families@))[i as int]));
            }
            i = i + 1;
        }
        proof {
            assert(lowered(views(loaded_families@)).take(i as int) =~= lowered(views(loaded_families@)));
        }
        let ghost lw = lowered(views(loaded_families@));
        let ghost reqs = requirement_views(self.text_font_requirements@);
        let mut missing: Vec<String> = Vec::new();
        let mut k: usize = 0;
        while k < self.text_font_requirements.len()
            invariant
                views(loaded@) == lw,
                reqs == requirement_views(self.text_font_requirements@),
                k <= self.text_font_requirements@.len(),
                views(missing@) == not_loaded(all_named_families(reqs.take(k as int)), lw),
            decreases self.text_font_requirements@.len() - k,
        {
            let names = self.text_font_requirements[k].named_families();
            let ghost prefix = all_named_families(reqs.take(k as int));
            let mut j: usize = 0;
            while j < names.len()
                invariant
                    views(loaded@) == lw,
                    j <= names@.len(),
                    views(missing@) == not_loaded(prefix + views(names@).take(j as int), lw),
                decreases names@.len() - j,
            {
                let lower = to_lowercase(names[j].as_str());
                let ghost before = missing@;
                if !contains_string(&loaded, &lower) {
                    missing.push(names[j].clone());
                    proof {
                        assert(views(missing@) =~= views(before).push(names@[j as int]@));
                    }
                }
                proof {
                    let t = prefix + views(names@).take(j + 1);
                    assert(t.drop_last() =~= prefix + views(names@).take(j as int));
                    assert(t.last() == names@[j as int]@);
                }
                j = j + 1;
            }
            proof {
                assert(views(names@).take(j as int) =~= views(names@));
                assert(reqs.take(k + 1).drop_last() =~= reqs.take(k as int));
                assert(reqs.take(k + 1).last() == self.text_font_requirements@[k as int]@);
            }
            k = k + 1;
        }
        proof {
            assert(reqs.take(k as int) =~= reqs);
        }
        let sorted = sorted_strings(&missing);
        dedup_strings(&sorted)
    }
}

// ---------------------------------------------------------------------------
// Laws of the analysis
// ---------------------------------------------------------------------------

proof fn lemma_add_all_unique_no_duplicates(list: Seq<Seq<char>>, xs: Seq<Seq<char>>)
    requires
        list.no_duplicates(),
    ensures
        add_all_unique(list, xs).no_duplicates(),
    decreases xs.len(),
{
    if xs.len() > 0 {
        lemma_add_all_unique_no_duplicates(list, xs.drop_last());
        let inner = add_all_unique(list, xs.drop_last());
        if !inner.contains(xs.last()) {
            let r = inner.push(xs.last());
            assert forall|i: int, j: int| 0 <= i < r.len() && 0 <= j < r.len() && i != j implies r[i] != r[j] by {
                if i == inner.len() as int {
                    assert(inner[j] == r[j]);
                } else if j == inner.len() as int {
                    assert(inner[i] == r[i]);
                } else {
                    assert(inner[i] == r[i] && inner[j] == r[j]);
                }
            }
        }
    }
}

proof fn lemma_add_requirements_no_duplicates(list: Seq<RequirementView>, rs: Seq<RequirementView>)
    requires
        list.no_duplicates(),
    ensures
        add_requirements(list, rs).no_duplicates(),
    decreases rs.len(),
{
    if rs.len() > 0 {
        lemma_add_requirements_no_duplicates(list, rs.drop_last());
        let inner = add_requirements(list, rs.drop_last());
        if !inner.contains(rs.last()) {
            let r = inner.push(rs.last());
            assert forall|i: int, j: int| 0 <= i < r.len() && 0 <= j < r.len() && i != j implies r[i] != r[j] by {
                if i == inner.len() as int {
                    assert(inner[j] == r[j]);
                } else if j == inner.len() as int {
                    assert(inner[i] == r[i]);
                } else {
                    assert(inner[i] == r[i] && inner[j] == r[j]);
                }
            }
        }
    }
}

proof fn lemma_analyze_node_no_duplicates(node: SvgNode, s: AnalysisState)
    requires
        s.features.no_duplicates(),
        s.requirements.no_duplicates(),
    ensures
        analyze_node(node, s).features.no_duplicates(),
        analyze_node(node, s).requirements.no_duplicates(),
    decreases node,
{
    lemma_add_all_unique_no_duplicates(s.features, node_features(node));
    let s1 = AnalysisState { features: add_all_unique(s.features, node_features(node)), ..s };
    match node {
        SvgNode::Group { children, .. } => {
            lemma_analyze_nodes_no_duplicates(children@, s1);
        },
        SvgNode::Text { span_fonts, flattened } => {
            lemma_add_requirements_no_duplicates(s1.requirements, requirement_views(span_fonts@));
            lemma_analyze_nodes_no_duplicates(
                flattened@,
                AnalysisState {
                    has_text: true,
                    requirements: add_requirements(s1.requirements, requirement_views(span_fonts@)),
                    ..s1
                },
            );
        },
        _ => {},
    }
}

/// Analysing nodes from any state whose features and font requests have no
/// duplicates leaves both without duplicates.
pub proof fn lemma_analyze_nodes_no_duplicates(nodes: Seq<SvgNode>, s: AnalysisState)
    requires
        s.features.no_duplicates(),
        s.requirements.no_duplicates(),
    ensures
        analyze_nodes(nodes, s).features.no_duplicates(),
        analyze_nodes(nodes, s).requirements.no_duplicates(),
    decreases nodes,
{
    if nodes.len() > 0 {
        lemma_analyze_nodes_no_duplicates(nodes.drop_last(), s);
        lemma_analyze_node_no_duplicates(nodes.last(), analyze_nodes(nodes.drop_last(), s));
    }
}

/// Recording the font requests `rs` into a list without duplicates keeps it
/// without duplicates, keeps the list as it was at the front, and gives
/// exactly the requests of the list and of `rs`.
pub proof fn lemma_font_requests_added_once(list: Seq<RequirementView>, rs: Seq<RequirementView>)
    requires
        list.no_duplicates(),
    ensures
        add_requirements(list, rs).no_duplicates(),
        add_requirements(list, rs).len() >= list.len(),
        add_requirements(list, rs).take(list.len() as int) == list,
        forall|x: RequirementView| #[trigger] add_requirements(list, rs).contains(x) <==> list.contains(x) || rs.contains(x),
    decreases rs.len(),
{
    lemma_add_requirements_no_duplicates(list, rs);
    if rs.len() > 0 {
        let rs0 = rs.drop_last();
        let last = rs.last();
        lemma_font_requests_added_once(list, rs0);
        let inner = add_requirements(list, rs0);
        let out = add_requirements(list, rs);
        if !inner.contains(last) {
            assert(out == inner.push(last));
            assert(out.take(list.len() as int) =~= inner.take(list.len() as int));
        } else {
            assert(out == inner);
        }
        assert forall|x: RequirementView| #[trigger] out.contains(x) <==> list.contains(x) || rs.contains(x) by {
            if rs.contains(x) && !rs0.contains(x) {
                let k = choose|k: int| 0 <= k < rs.len() && rs[k] == x;
                if k < rs.len() - 1 {
                    assert(rs0[k] == x);
                }
                assert(x == last);
                if !inner.contains(last) {
                    assert(out[inner.len() as int] == x);
                }
            }
            if rs0.contains(x) {
                let k = choose|k: int| 0 <= k < rs0.len() && rs0[k] == x;
                assert(rs[k] == x);
            }
            if out.contains(x) && !inner.contains(x) {
                assert(x == last);
                assert(rs[rs.len() - 1] == x);
            }
            if inner.contains(x) && !inner.contains(last) {
                let k = choose|k: int| 0 <= k < inner.len() && inner[k] == x;
                assert(out[k] == x);
            }
        }
    } else {
        assert(list.take(list.len() as int) =~= list);
    }
}

/// The analysis of a document reports each unsupported feature once and each
/// distinct font request once.
pub proof fn lemma_analysis_reports_once(nodes: Seq<SvgNode>)
    ensures
        analyze_nodes(nodes, empty_analysis()).features.no_duplicates(),
        analyze_nodes(nodes, empty_analysis()).requirements.no_duplicates(),
{
    lemma_analyze_nodes_no_duplicates(nodes, empty_analysis());
}

proof fn lemma_dedup_from(s: Seq<Seq<char>>)
    ensures
        forall|k: int| 0 <= k < dedup(s).len() ==> s.contains(#[trigger] dedup(s)[k]),
        dedup(s).len() > 0 ==> dedup(s).last() == s.last(),
        s.len() > 0 ==> dedup(s).len() > 0,
    decreases s.len(),
{
    if s.len() > 0 {
        let t = s.drop_last();
        lemma_dedup_from(t);
        let d = dedup(t);
        assert forall|k: int| 0 <= k < dedup(s).len() implies s.contains(#[trigger] dedup(s)[k]) by {
            if k < d.len() {
                assert(t.contains(d[k]));
                let i = choose|i: int| 0 <= i < t.len() && t[i] == d[k];
                assert(s[i] == d[k]);
            } else {
                assert(dedup(s)[k] == s[s.len() - 1]);
            }
        }
    }
}

proof fn lemma_dedup_strict(s: Seq<Seq<char>>)
    requires
        forall|i: int, j: int| 0 <= i < j < s.len() ==> !str_lt(#[trigger] s[j], #[trigger] s[i]),
    ensures
        forall|i: int, j: int| 0 <= i < j < dedup(s).len() ==> str_lt(#[trigger] dedup(s)[i], #[trigger] dedup(s)[j]),
    decreases s.len(),
{
    if s.len() > 0 {
        let t = s.drop_last();
        assert forall|i: int, j: int| 0 <= i < j < t.len() implies !str_lt(#[trigger] t[j], #[trigger] t[i]) by {
            assert(t[i] == s[i] && t[j] == s[j]);
        }
        lemma_dedup_strict(t);
        lemma_dedup_from(t);
        lemma_str_lt_strict();
        let d = dedup(t);
        let x = s.last();
        if !(d.len() > 0 && d.last() == x) {
            let r = d.push(x);
            if d.len() > 0 {
                assert(t.contains(d.last())) by {
                    assert(t.contains(d[d.len() - 1]));
                }
                let k = choose|k: int| 0 <= k < t.len() && t[k] == d.last();
                assert(s[k] == d.last());
                assert(!str_lt(s[s.len() - 1], s[k]));
                lemma_str_lt_total(d.last(), x);
            }
            assert forall|i: int, j: int| 0 <= i < j < r.len() implies str_lt(#[trigger] r[i], #[trigger] r[j]) by {
                if j == r.len() - 1 {
                    if i < d.len() - 1 {
                        assert(str_lt(d[i], d[d.len() - 1]));
                    }
                    assert(r[i] == d[i]);
                } else {
                    assert(r[i] == d[i] && r[j] == d[j]);
                }
            }
        }
    }
}

proof fn lemma_not_loaded_from(families: Seq<Seq<char>>, loaded_lower: Seq<Seq<char>>)
    ensures
        forall|k: int|
            0 <= k < not_loaded(families, loaded_lower).len() ==> {
                &&& families.contains(#[trigger] not_loaded(families, loaded_lower)[k])
                &&& !loaded_lower.contains(lowercase(not_loaded(families, loaded_lower)[k]))
            },
    decreases families.len(),
{
    if families.len() > 0 {
        let t = families.drop_last();
        lemma_not_loaded_from(t, loaded_lower);
        let n0 = not_loaded(t, loaded_lower);
        let n1 = not_loaded(families, loaded_lower);
        assert forall|k: int| 0 <= k < n1.len() implies families.contains(#[trigger] n1[k])
            && !loaded_lower.contains(lowercase(n1[k])) by {
            if k < n0.len() {
                assert(n1[k] == n0[k]);
                assert(t.contains(n0[k]));
                let i = choose|i: int| 0 <= i < t.len() && t[i] == n0[k];
                assert(families[i] == n0[k]);
            } else {
                assert(n1[k] == families[families.len() - 1]);
            }
        }
    }
}

/// The missing families come in strictly ascending byte order, so each at most
/// once, and each is a family requested by name that no loaded family matches
/// once both are lowercased.
pub proof fn lemma_missing_families_sorted_unique(reqs: Seq<RequirementView>, loaded: Seq<Seq<char>>)
    ensures
        forall|i: int, j: int|
            0 <= i < j < missing_families(reqs, loaded).len() ==> str_lt(
                #[trigger] missing_families(reqs, loaded)[i],
                #[trigger] missing_families(reqs, loaded)[j],
            ),
        forall|k: int|
            0 <= k < missing_families(reqs, loaded).len() ==> {
                &&& all_named_families(reqs).contains(#[trigger] missing_families(reqs, loaded)[k])
                &&& !lowered(loaded).contains(lowercase(missing_families(reqs, loaded)[k]))
            },
{
    let nl = not_loaded(all_named_families(reqs), lowered(loaded));
    let sk = sorted_keys(nl);
    let m = missing_families(reqs, loaded);
    lemma_sorted_keys(nl);
    lemma_dedup_strict(sk);
    lemma_dedup_from(sk);
    lemma_not_loaded_from(all_named_families(reqs), lowered(loaded));
    assert forall|k: int| 0 <= k < m.len() implies all_named_families(reqs).contains(#[trigger] m[k])
        && !lowered(loaded).contains(lowercase(m[k])) by {
        assert(sk.contains(m[k]));
        let i = choose|i: int| 0 <= i < sk.len() && sk[i] == m[k];
        assert(nl.contains(sk[i]));
        let j = choose|j: int| 0 <= j < nl.len() && nl[j] == sk[i];
        assert(nl[j] == m[k]);
    }
}

} // verus!
