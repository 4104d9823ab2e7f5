//! Interning of PDF resources (graphics states, functions, shadings, forms,
//! patterns and images) and their deterministic, name-ordered enumeration.

use vstd::prelude::*;

use super::image::ImageResource;
use super::PdfConverter;
use super::util::{push_tex_obj_ref, spec_tex_obj_ref};
use crate::text::{
    arrange, decimal, indices, join, join_strings, key_lt, lemma_decimal_injective,
    lemma_key_lt_strict, lemma_sort_by_props, order_by_key, push_decimal, sorted_keys, sorted_order,
    sorted_strings, str_lt, views,
};

verus! {

/// One interned PDF object: the key it was requested under, its resource name,
/// its dictionary for the pdfTeX/LuaTeX backends and for the DVI backend, and
/// its stream (empty for objects without a stream).
pub struct ResourceEntry {
    pub key: String,
    pub name: String,
    pub pdf_dict: String,
    pub dvi_dict: String,
    pub stream: Vec<u8>,
    pub id: usize,
}

/// A raster image registered under its resource name.
pub struct ImageEntry {
    pub name: String,
    pub image: ImageResource,
}

/// The registry of all PDF resources that the page content refers to.
pub struct PdfResources {
    ext_gstates: Vec<ResourceEntry>,
    functions: Vec<ResourceEntry>,
    images: Vec<ImageEntry>,
    shadings: Vec<ResourceEntry>,
    forms: Vec<ResourceEntry>,
    patterns: Vec<ResourceEntry>,
    next_id: usize,
}

/// The contents of a registry, kind by kind, in insertion order.
#[verifier::ext_equal]
pub struct ResourcesView {
    pub ext_gstates: Seq<ResourceEntry>,
    pub functions: Seq<ResourceEntry>,
    pub images: Seq<ImageEntry>,
    pub shadings: Seq<ResourceEntry>,
    pub forms: Seq<ResourceEntry>,
    pub patterns: Seq<ResourceEntry>,
    pub next_id: nat,
}

impl View for PdfResources {
    type V = ResourcesView;

    closed spec fn view(&self) -> ResourcesView {
        ResourcesView {
            ext_gstates: self.ext_gstates@,
            functions: self.functions@,
            images: self.images@,
            shadings: self.shadings@,
            forms: self.forms@,
            patterns: self.patterns@,
            next_id: self.next_id as nat,
        }
    }
}

/// The entry stored under `key`, if any.
pub open spec fn lookup(list: Seq<ResourceEntry>, key: Seq<char>) -> Option<ResourceEntry>
    decreases list.len(),
{
    if list.len() == 0 {
        None
    } else if list[0].key@ == key {
        Some(list[0])
    } else {
        lookup(list.drop_first(), key)
    }
}

/// The resource name of the object numbered `id` of a kind: its prefix and the
/// decimal number.
pub open spec fn resource_name(prefix: Seq<char>, id: nat) -> Seq<char> {
    prefix + decimal(id)
}

/// One kind of interned objects is well formed: keys are distinct, numbers grow
/// in insertion order and stay below `next_id`, and each name is the prefix
/// followed by the object's number.
pub open spec fn kind_wf(list: Seq<ResourceEntry>, prefix: Seq<char>, next_id: nat) -> bool {
    &&& forall|i: int, j: int|
        0 <= i < j < list.len() ==> (#[trigger] list[i]).key@ != (#[trigger] list[j]).key@
            && list[i].id < list[j].id
    &&& forall|i: int|
        0 <= i < list.len() ==> {
            &&& (#[trigger] list[i]).name@ == resource_name(prefix, list[i].id as nat)
            &&& list[i].id < next_id
        }
}

/// Resource-name prefixes of the kinds.
pub open spec fn ext_gstate_prefix() -> Seq<char> {
    "GS"@
}

pub open spec fn function_prefix() -> Seq<char> {
    "Fn"@
}

pub open spec fn shading_prefix() -> Seq<char> {
    "Sh"@
}

pub open spec fn form_prefix() -> Seq<char> {
    "Fm"@
}

pub open spec fn pattern_prefix() -> Seq<char> {
    "Pt"@
}

impl ResourcesView {
    /// Every kind is well formed and image names are distinct.
    pub open spec fn wf(self) -> bool {
        &&& kind_wf(self.ext_gstates, ext_gstate_prefix(), self.next_id)
        &&& kind_wf(self.functions, function_prefix(), self.next_id)
        &&& kind_wf(self.shadings, shading_prefix(), self.next_id)
        &&& kind_wf(self.forms, form_prefix(), self.next_id)
        &&& kind_wf(self.patterns, pattern_prefix(), self.next_id)
        &&& forall|i: int, j: int|
            0 <= i < j < self.images.len() ==> (#[trigger] self.images[i]).name@
                != (#[trigger] self.images[j]).name@
        &&& self.next_id >= 1
    }
}

/// The names of the entries of a kind, in insertion order.
pub open spec fn entry_names(list: Seq<ResourceEntry>) -> Seq<Seq<char>> {
    list.map_values(|e: ResourceEntry| e.name@)
}

/// The names of the images, in insertion order.
pub open spec fn image_names(list: Seq<ImageEntry>) -> Seq<Seq<char>> {
    list.map_values(|e: ImageEntry| e.name@)
}

/// The entries of a kind in ascending byte order of their names.
pub open spec fn sorted_entries(list: Seq<ResourceEntry>) -> Seq<ResourceEntry> {
    arrange(list, order_by_key(entry_names(list)))
}

/// The images in ascending byte order of their names.
pub open spec fn sorted_image_entries(list: Seq<ImageEntry>) -> Seq<ImageEntry> {
    arrange(list, order_by_key(image_names(list)))
}

/// What interning `key` does to one kind: nothing when the key is present (the
/// name returned is the stored one), otherwise it appends an entry numbered
/// `next_id` and named after it.
pub open spec fn interned(
    old_list: Seq<ResourceEntry>,
    new_list: Seq<ResourceEntry>,
    name: Seq<char>,
    prefix: Seq<char>,
    next_id: nat,
    key: Seq<char>,
    pdf_dict: Seq<char>,
    dvi_dict: Seq<char>,
    stream: Seq<u8>,
) -> bool {
    match lookup(old_list, key) {
        Some(e) => new_list == old_list && name == e.name@,
        None => {
            &&& name == resource_name(prefix, next_id)
            &&& new_list.len() == old_list.len() + 1
            &&& new_list.drop_last() == old_list
            &&& new_list.last().key@ == key
            &&& new_list.last().name@ == name
            &&& new_list.last().pdf_dict@ == pdf_dict
            &&& new_list.last().dvi_dict@ == dvi_dict
            &&& new_list.last().stream@ == stream
            &&& new_list.last().id == next_id
        },
    }
}

proof fn lemma_lookup_some(list: Seq<ResourceEntry>, key: Seq<char>)
    ensures
        lookup(list, key) matches Some(e) ==> exists|i: int|
            0 <= i < list.len() && list[i] == e && #[trigger] list[i].key@ == key,
        lookup(list, key) is None ==> forall|i: int|
            0 <= i < list.len() ==> (#[trigger] list[i]).key@ != key,
    decreases list.len(),
{
    if list.len() > 0 {
        lemma_lookup_some(list.drop_first(), key);
        if list[0].key@ != key {
            if let Some(e) = lookup(list, key) {
                let i = choose|i: int|
                    0 <= i < list.drop_first().len() && list.drop_first()[i] == e
                        && #[trigger] list.drop_first()[i].key@ == key;
                assert(list[i + 1] == e && list[i + 1].key@ == key);
            } else {
                assert forall|i: int| 0 <= i < list.len() implies (#[trigger] list[i]).key@ != key by {
                    if i > 0 {
                        assert(list[i] == list.drop_first()[i - 1]);
                    }
                }
            }
        }
    }
}

/// Finds the position of `key` among the entries (the first one holding it).
fn find_key(list: &Vec<ResourceEntry>, key: &String) -> (r: Option<usize>)
    ensures
        match r {
            Some(i) => i < list@.len() && lookup(list@, key@) == Some(list@[i as int]),
            None => lookup(list@, key@) is None,
        },
{
    let n = list.len();
    let mut i: usize = 0;
    proof {
        assert(list@.skip(0) =~= list@);
    }
    while i < n
        invariant
            n == list@.len(),
            i <= n,
            lookup(list@, key@) == lookup(list@.skip(i as int), key@),
        decreases n - i,
    {
        if list[i].key == *key {
            return Some(i);
        }
        proof {
            assert(list@.skip(i as int).drop_first() =~= list@.skip(i + 1));
        }
        i = i + 1;
    }
    None
}

/// The name of the object of `prefix` numbered `id`.
fn make_name(prefix: &str, id: usize) -> (r: String)
    ensures
        r@ == resource_name(prefix@, id as nat),
{
    let mut name = String::new();
    name.append(prefix);
    push_decimal(&mut name, id as u64);
    name
}

/// Interns one object of a kind; returns the name stored under `key`.
fn intern(
    list: &mut Vec<ResourceEntry>,
    next_id: &mut usize,
    prefix: &str,
    key: String,
    pdf_dict: String,
    dvi_dict: String,
    stream: Vec<u8>,
) -> (name: String)
    requires
        kind_wf(old(list)@, prefix@, *old(next_id) as nat),
        lookup(old(list)@, key@) is None ==> *old(next_id) < usize::MAX,
    ensures
        interned(
            old(list)@,
            final(list)@,
            name@,
            prefix@,
            *old(next_id) as nat,
            key@,
            pdf_dict@,
            dvi_dict@,
            stream@,
        ),
        lookup(old(list)@, key@) is Some ==> *final(next_id) == *old(next_id),
        lookup(old(list)@, key@) is None ==> *final(next_id) == *old(next_id) + 1,
        kind_wf(final(list)@, prefix@, *final(next_id) as nat),
{
    match find_key(list, &key) {
        Some(i) => {
            let name = list[i].name.clone();
            name
        },
        None => {
            proof {
                lemma_lookup_some(list@, key@);
            }
            let id = *next_id;
            *next_id = id + 1;
            let name = make_name(prefix, id);
            let entry = ResourceEntry {
                key,
                name: name.clone(),
                pdf_dict,
                dvi_dict,
                stream,
                id,
            };
            list.push(entry);
            proof {
                let l = list@;
                assert(l.drop_last() =~= old(list)@);
                assert forall|i: int, j: int| 0 <= i < j < l.len() implies (#[trigger] l[i]).key@
                    != (#[trigger] l[j]).key@ && l[i].id < l[j].id by {
                    if j == l.len() - 1 {
                        assert(l[i] == old(list)@[i]);
                    } else {
                        assert(l[i] == old(list)@[i] && l[j] == old(list)@[j]);
                    }
                }
                assert forall|i: int| 0 <= i < l.len() implies {
                    &&& (#[trigger] l[i]).name@ == resource_name(prefix@, l[i].id as nat)
                    &&& l[i].id < *final(next_id)
                } by {
                    if i < l.len() - 1 {
                        assert(l[i] == old(list)@[i]);
                    }
                }
            }
            name
        },
    }
}

impl PdfResources {
    /// An empty registry whose first object will be numbered 1.
    pub fn new() -> (r: Self)
        ensures
            r@.wf(),
            r@.ext_gstates.len() == 0,
            r@.functions.len() == 0,
            r@.images.len() == 0,
            r@.shadings.len() == 0,
            r@.forms.len() == 0,
            r@.patterns.len() == 0,
            r@.next_id == 1,
    {
        PdfResources {
            ext_gstates: Vec::new(),
            functions: Vec::new(),
            images: Vec::new(),
            shadings: Vec::new(),
            forms: Vec::new(),
            patterns: Vec::new(),
            next_id: 1,
        }
    }

    /// Hands out the next object number and advances the counter.
    pub fn get_next_id(&mut self) -> (id: usize)
        requires
            old(self)@.wf(),
            old(self)@.next_id < usize::MAX,
        ensures
            id == old(self)@.next_id,
            final(self)@ == (ResourcesView { next_id: old(self)@.next_id + 1, ..old(self)@ }),
            final(self)@.wf(),
    {
        let id = self.next_id;
        self.next_id = self.next_id + 1;
        id
    }

    /// The number the next interned object will get.
    pub fn next_id(&self) -> (id: usize)
        ensures
            id == self@.next_id,
    {
        self.next_id
    }

    /// Registers an image under `name`; an image already registered under that
    /// name is replaced (its entry keeps its place).
    pub fn insert_image(&mut self, name: String, image: ImageResource)
        requires
            old(self)@.wf(),
        ensures
            final(self)@.wf(),
            final(self)@ == (ResourcesView {
                images: match image_position(old(self)@.images, name@) {
                    Some(i) => old(self)@.images.update(
                        i,
                        ImageEntry { name: old(self)@.images[i].name, image },
                    ),
                    None => old(self)@.images.push(ImageEntry { name, image }),
                },
                ..old(self)@
            }),
    {
        let n = self.images.len();
        let mut i: usize = 0;
        while i < n
            invariant
                n == self.images@.len(),
                i <= n,
                self.images@ == old(self).images@,
                self@ == old(self)@,
                old(self)@.wf(),
                forall|k: int| 0 <= k < i ==> (#[trigger] self.images@[k]).name@ != name@,
            decreases n - i,
        {
            if self.images[i].name == name {
                proof {
                    lemma_image_position(self.images@, name@, i as int);
                }
                let old_name = self.images[i].name.clone();
                self.images.set(i, ImageEntry { name: old_name, image });
                proof {
                    let l = self.images@;
                    let o = old(self).images@;
                    assert(o == old(self)@.images);
                    assert forall|a: int, b: int| 0 <= a < b < l.len() implies (#[trigger] l[a]).name@
                        != (#[trigger] l[b]).name@ by {
                        assert(l[a].name@ == o[a].name@);
                        assert(l[b].name@ == o[b].name@);
                        assert(o[a].name@ != o[b].name@);
                    }
                }
                return;
            }
            i = i + 1;
        }
        proof {
            lemma_image_position(self.images@, name@, n as int);
        }
        self.images.push(ImageEntry { name, image });
        proof {
            let l = self.images@;
            assert forall|a: int, b: int| 0 <= a < b < l.len() implies (#[trigger] l[a]).name@
                != (#[trigger] l[b]).name@ by {
                assert(l[a] == old(self).images@[a]);
                if b < l.len() - 1 {
                    assert(l[b] == old(self).images@[b]);
                }
            }
        }
    }
}

/// The first position of an image registered under `name`.
pub open spec fn image_position(list: Seq<ImageEntry>, name: Seq<char>) -> Option<int>
    decreases list.len(),
{
    if list.len() == 0 {
        None
    } else if list[0].name@ == name {
        Some(0)
    } else {
        match image_position(list.drop_first(), name) {
            Some(i) => Some(i + 1),
            None => None,
        }
    }
}

proof fn lemma_image_position(list: Seq<ImageEntry>, name: Seq<char>, i: int)
    requires
        0 <= i <= list.len(),
        forall|k: int| 0 <= k < i ==> (#[trigger] list[k]).name@ != name,
    ensures
        i < list.len() && list[i].name@ == name ==> image_position(list, name) == Some(i),
        i == list.len() ==> image_position(list, name) is None,
    decreases i,
{
    if i > 0 {
        let t = list.drop_first();
        assert forall|k: int| 0 <= k < i - 1 implies (#[trigger] t[k]).name@ != name by {
            assert(t[k] == list[k + 1]);
        }
        lemma_image_position(t, name, i - 1);
        assert(list[0].name@ != name);
        if i < list.len() {
            assert(t[i - 1] == list[i]);
        }
    }
}

/// The view of an optional string slice.
pub open spec fn opt_view(o: Option<&str>) -> Option<Seq<char>> {
    match o {
        Some(t) => Some(t@),
        None => None,
    }
}

/// The kinds of interned objects.
#[derive(PartialEq, Eq, Structural, Clone, Copy)]
pub enum ResourceKind {
    ExtGState,
    Function,
    Shading,
    Form,
    Pattern,
}

/// The entries of one kind.
pub open spec fn kind_entries(r: ResourcesView, kind: ResourceKind) -> Seq<ResourceEntry> {
    match kind {
        ResourceKind::ExtGState => r.ext_gstates,
        ResourceKind::Function => r.functions,
        ResourceKind::Shading => r.shadings,
        ResourceKind::Form => r.forms,
        ResourceKind::Pattern => r.patterns,
    }
}

/// The resource-name prefix of one kind.
pub open spec fn kind_prefix(kind: ResourceKind) -> Seq<char> {
    match kind {
        ResourceKind::ExtGState => ext_gstate_prefix(),
        ResourceKind::Function => function_prefix(),
        ResourceKind::Shading => shading_prefix(),
        ResourceKind::Form => form_prefix(),
        ResourceKind::Pattern => pattern_prefix(),
    }
}

/// `new` is `old` after interning `key` in `kind`, `name` being the name handed
/// back; all other kinds and the images stay as they were.
pub open spec fn interns(
    old: ResourcesView,
    new: ResourcesView,
    kind: ResourceKind,
    name: Seq<char>,
    key: Seq<char>,
    pdf_dict: Seq<char>,
    dvi_dict: Seq<char>,
    stream: Seq<u8>,
) -> bool {
    &&& interned(
        kind_entries(old, kind),
        kind_entries(new, kind),
        name,
        kind_prefix(kind),
        old.next_id,
        key,
        pdf_dict,
        dvi_dict,
        stream,
    )
    &&& forall|k: ResourceKind| k != kind ==> kind_entries(new, k) == kind_entries(old, k)
    &&& new.images == old.images
    &&& new.next_id == if lookup(kind_entries(old, kind), key) is None {
        old.next_id + 1
    } else {
        old.next_id
    }
}

/// Interning needs a fresh number only when the key is new.
pub open spec fn can_intern(r: ResourcesView, kind: ResourceKind, key: Seq<char>) -> bool {
    &&& r.wf()
    &&& lookup(kind_entries(r, kind), key) is None ==> r.next_id < usize::MAX
}

/// The graphics-state dictionary made of `entries` separated by spaces.
pub open spec fn ext_gstate_dict(entries: Seq<Seq<char>>) -> Seq<char> {
    "<</Type/ExtGState "@ + join(entries, " "@) + ">>"@
}

/// The key under which a soft-mask graphics state is interned.
pub open spec fn soft_mask_key(form_name: Seq<char>, subtype: Seq<char>, transfer: Option<Seq<char>>) -> Seq<char> {
    "soft-mask/"@ + subtype + "/"@ + form_name + "/"@ + match transfer {
        Some(t) => t,
        None => "identity"@,
    }
}

/// The soft-mask graphics state for pdfTeX/LuaTeX: the mask group is referenced
/// indirectly, with an optional transfer function.
pub open spec fn soft_mask_pdf_dict(form_name: Seq<char>, subtype: Seq<char>, transfer: Option<Seq<char>>) -> Seq<char> {
    "<</Type/ExtGState /SMask <</S /"@ + subtype + " /G "@ + spec_tex_obj_ref(form_name) + match transfer {
        Some(t) => " /TR "@ + spec_tex_obj_ref(t),
        None => Seq::empty(),
    } + ">>>>"@
}

/// The soft-mask graphics state for the DVI backend, referring to named objects.
pub open spec fn soft_mask_dvi_dict(form_name: Seq<char>, subtype: Seq<char>, transfer: Option<Seq<char>>) -> Seq<char> {
    "<</Type/ExtGState /SMask <</S /"@ + subtype + " /G @"@ + form_name + match transfer {
        Some(t) => " /TR @"@ + t,
        None => Seq::empty(),
    } + ">>>>"@
}

/// A resource-dictionary item that refers to `name` for pdfTeX/LuaTeX.
pub open spec fn pdf_ref_item(name: Seq<char>) -> Seq<char> {
    "/"@ + name + " "@ + spec_tex_obj_ref(name)
}

/// A resource-dictionary item that refers to `name` for the DVI backend.
pub open spec fn dvi_ref_item(name: Seq<char>) -> Seq<char> {
    "/"@ + name + " @"@ + name
}

/// The resource-dictionary items that refer to each of `names`.
pub open spec fn ref_items(names: Seq<Seq<char>>, dvi: bool) -> Seq<Seq<char>> {
    names.map_values(|n: Seq<char>| if dvi { dvi_ref_item(n) } else { pdf_ref_item(n) })
}

/// A section of a resource dictionary, present only when it has items.
pub open spec fn opt_section(open: Seq<char>, items: Seq<Seq<char>>, close: Seq<char>) -> Seq<Seq<char>> {
    if items.len() == 0 {
        Seq::empty()
    } else {
        seq![open + join(items, " "@) + close]
    }
}

/// The names of the entries of a kind, in byte order.
pub open spec fn sorted_entry_names(list: Seq<ResourceEntry>) -> Seq<Seq<char>> {
    sorted_keys(entry_names(list))
}

/// The XObject items: the images, then the forms, each in byte order of names.
pub open spec fn xobject_items(r: ResourcesView, dvi: bool) -> Seq<Seq<char>> {
    ref_items(sorted_keys(image_names(r.images)), dvi) + ref_items(
        sorted_entry_names(r.forms),
        dvi,
    )
}

/// The sections of a resource dictionary inlined in a form or pattern.
pub open spec fn inline_sections(r: ResourcesView, include_patterns: bool, dvi: bool) -> Seq<Seq<char>> {
    opt_section("/ExtGState<<"@, ref_items(sorted_entry_names(r.ext_gstates), dvi), ">>"@)
        + opt_section("/Shading<<"@, ref_items(sorted_entry_names(r.shadings), dvi), ">>"@)
        + if include_patterns {
        opt_section("/Pattern<<"@, ref_items(sorted_entry_names(r.patterns), dvi), ">>"@)
    } else {
        Seq::empty()
    } + opt_section("/XObject<<"@, xobject_items(r, dvi), ">>"@)
}

/// A resource dictionary that refers to every registered object, or the empty
/// string when there is none.
pub open spec fn inline_resource_dict(r: ResourcesView, include_patterns: bool, dvi: bool) -> Seq<char> {
    let sections = inline_sections(r, include_patterns, dvi);
    if sections.len() == 0 {
        Seq::empty()
    } else {
        "<<"@ + join(sections, " "@) + ">>"@
    }
}

/// The pdfTeX/LuaTeX dictionary of a transparency-group form XObject.
pub open spec fn group_form_pdf_dict(bbox: Seq<char>, color_space: Seq<char>, resources: Seq<char>) -> Seq<char> {
    "<</Type/XObject/Subtype/Form/BBox ["@ + bbox + "] /Group <</S /Transparency /CS /"@
        + color_space + ">> /Resources "@ + (if resources.len() == 0 {
        "<<>>"@
    } else {
        resources
    }) + " /Filter [/ASCIIHexDecode]>>"@
}

/// The DVI dictionary of a transparency-group form XObject.
pub open spec fn group_form_dvi_dict(bbox: Seq<char>, color_space: Seq<char>, resources: Seq<char>) -> Seq<char> {
    "<</Type/XObject/Subtype/Form/BBox ["@ + bbox + "] /Group <</S /Transparency /CS /"@
        + color_space + ">> /Resources "@ + (if resources.len() == 0 {
        "<<>>"@
    } else {
        resources
    }) + " /Filter /ASCIIHexDecode>>"@
}

/// The two converters agree on everything but the resources.
pub open spec fn same_but_resources(a: &PdfConverter, b: &PdfConverter) -> bool {
    &&& a.pdf_ops == b.pdf_ops
    &&& a.embed_images == b.embed_images
    &&& a.engine == b.engine
    &&& a.tex_format == b.tex_format
}

/// The names of the entries of a kind, in insertion order.
pub(crate) fn names_of(list: &Vec<ResourceEntry>) -> (r: Vec<String>)
    ensures
        views(r@) == entry_names(list@),
{
    let mut r: Vec<String> = Vec::new();
    let mut i: usize = 0;
    while i < list.len()
        invariant
            i <= list@.len(),
            r@.len() == i,
            views(r@) == entry_names(list@).take(i as int),
        decreases list@.len() - i,
    {
        r.push(list[i].name.clone());
        proof {
            assert(views(r@) =~= entry_names(list@).take(i + 1));
        }
        i = i + 1;
    }
    proof {
        assert(entry_names(list@).take(i as int) =~= entry_names(list@));
    }
    r
}

/// The names of the images, in insertion order.
pub(crate) fn image_names_of(list: &Vec<ImageEntry>) -> (r: Vec<String>)
    ensures
        views(r@) == image_names(list@),
{
    let mut r: Vec<String> = Vec::new();
    let mut i: usize = 0;
    while i < list.len()
        invariant
            i <= list@.len(),
            r@.len() == i,
            views(r@) == image_names(list@).take(i as int),
        decreases list@.len() - i,
    {
        r.push(list[i].name.clone());
        proof {
            assert(views(r@) =~= image_names(list@).take(i + 1));
        }
        i = i + 1;
    }
    proof {
        assert(image_names(list@).take(i as int) =~= image_names(list@));
    }
    r
}

/// Appends to `items` the reference item of each of `names`.
pub(crate) fn push_ref_items(items: &mut Vec<String>, names: &Vec<String>, dvi: bool)
    ensures
        views(final(items)@) == views(old(items)@) + ref_items(views(names@), dvi),
{
    let mut i: usize = 0;
    while i < names.len()
        invariant
            i <= names@.len(),
            views(items@) == views(old(items)@) + ref_items(views(names@), dvi).take(i as int),
        decreases names@.len() - i,
    {
        let name = names[i].as_str();
        let mut item = String::new();
        item.append("/");
        item.append(name);
        if dvi {
            item.append(" @");
            item.append(name);
        } else {
            item.append(" ");
            push_tex_obj_ref(&mut item, name);
        }
        let ghost before = items@;
        items.push(item);
        proof {
            assert(items@ == before.push(item));
            assert(views(items@) =~= views(before).push(item@));
            assert(ref_items(views(names@), dvi).take(i + 1) =~= ref_items(views(names@), dvi).take(
                i as int,
            ).push(ref_items(views(names@), dvi)[i as int]));
        }
        i = i + 1;
    }
    proof {
        assert(ref_items(views(names@), dvi).take(i as int) =~= ref_items(views(names@), dvi));
    }
}

/// Appends a section made of `items` between `open` and `close` when there are items.
pub(crate) fn push_section(sections: &mut Vec<String>, open: &str, items: &Vec<String>, close: &str)
    ensures
        views(final(sections)@) == views(old(sections)@) + opt_section(open@, views(items@), close@),
{
    if items.len() > 0 {
        let mut section = String::new();
        section.append(open);
        let joined = join_strings(items.as_slice(), " ");
        section.append(joined.as_str());
        section.append(close);
        let ghost before = sections@;
        sections.push(section);
        proof {
            assert(views(sections@) =~= views(before).push(section@));
            assert(views(sections@) =~= views(before) + opt_section(open@, views(items@), close@));
        }
    } else {
        proof {
            assert(views(sections@) =~= views(sections@) + opt_section(open@, views(items@), close@));
        }
    }
}

impl PdfResources {
    /// The ext-gstate entries, in insertion order.
    pub fn ext_gstate_entries(&self) -> (r: &Vec<ResourceEntry>)
        ensures
            r@ == self@.ext_gstates,
    {
        &self.ext_gstates
    }

    /// The function entries, in insertion order.
    pub fn function_entries(&self) -> (r: &Vec<ResourceEntry>)
        ensures
            r@ == self@.functions,
    {
        &self.functions
    }

    /// The shading entries, in insertion order.
    pub fn shading_entries(&self) -> (r: &Vec<ResourceEntry>)
        ensures
            r@ == self@.shadings,
    {
        &self.shadings
    }

    /// The form entries, in insertion order.
    pub fn form_entries(&self) -> (r: &Vec<ResourceEntry>)
        ensures
            r@ == self@.forms,
    {
        &self.forms
    }

    /// The pattern entries, in insertion order.
    pub fn pattern_entries(&self) -> (r: &Vec<ResourceEntry>)
        ensures
            r@ == self@.patterns,
    {
        &self.patterns
    }

    /// The images, in insertion order.
    pub fn image_entries(&self) -> (r: &Vec<ImageEntry>)
        ensures
            r@ == self@.images,
    {
        &self.images
    }
}

impl PdfConverter {
    /// Interns a graphics state under `key`; returns its name (`GS<n>`).
    pub fn ensure_ext_gstate_with_dicts(&mut self, key: String, pdf_dict: String, dvi_dict: String) -> (name: String)
        requires
            can_intern(old(self).resources@, ResourceKind::ExtGState, key@),
        ensures
            final(self).resources@.wf(),
            interns(old(self).resources@, final(self).resources@, ResourceKind::ExtGState, name@, key@, pdf_dict@, dvi_dict@, Seq::empty()),
            same_but_resources(final(self), old(self)),
    {
        let r = &mut self.resources;
        intern(&mut r.ext_gstates, &mut r.next_id, "GS", key, pdf_dict, dvi_dict, Vec::new())
    }

    /// Interns the graphics state made of `entries` (none when there are no
    /// entries); its key is the entries joined by spaces.
    pub fn ensure_ext_gstate(&mut self, entries: &[String]) -> (name: Option<String>)
        requires
            entries@.len() > 0 ==> can_intern(old(self).resources@, ResourceKind::ExtGState, join(views(entries@), " "@)),
        ensures
            entries@.len() == 0 <==> name is None,
            entries@.len() == 0 ==> *final(self) == *old(self),
            name matches Some(n) ==> {
                &&& final(self).resources@.wf()
                &&& interns(
                    old(self).resources@,
                    final(self).resources@,
                    ResourceKind::ExtGState,
                    n@,
                    join(views(entries@), " "@),
                    ext_gstate_dict(views(entries@)),
                    ext_gstate_dict(views(entries@)),
                    Seq::empty(),
                )
                &&& same_but_resources(final(self), old(self))
            },
    {
        if entries.len() == 0 {
            return None;
        }
        let key = join_strings(entries, " ");
        let mut pdf_dict = String::new();
        pdf_dict.append("<</Type/ExtGState ");
        pdf_dict.append(key.as_str());
        pdf_dict.append(">>");
        let dvi_dict = pdf_dict.clone();
        let name = self.ensure_ext_gstate_with_dicts(key, pdf_dict, dvi_dict);
        Some(name)
    }

    /// Interns the soft-mask graphics state that masks with the form `form_name`.
    pub fn ensure_soft_mask_ext_gstate(&mut self, form_name: &str, subtype: &str) -> (name: String)
        requires
            can_intern(old(self).resources@, ResourceKind::ExtGState, soft_mask_key(form_name@, subtype@, None)),
        ensures
            final(self).resources@.wf(),
            interns(
                old(self).resources@,
                final(self).resources@,
                ResourceKind::ExtGState,
                name@,
                soft_mask_key(form_name@, subtype@, None),
                soft_mask_pdf_dict(form_name@, subtype@, None),
                soft_mask_dvi_dict(form_name@, subtype@, None),
                Seq::empty(),
            ),
            same_but_resources(final(self), old(self)),
    {
        self.ensure_soft_mask_ext_gstate_with_transfer(form_name, subtype, None)
    }

    /// Interns the soft-mask graphics state that masks with the form
    /// `form_name`, optionally passing the mask through a transfer function.
    pub fn ensure_soft_mask_ext_gstate_with_transfer(
        &mut self,
        form_name: &str,
        subtype: &str,
        transfer_name: Option<&str>,
    ) -> (name: String)
        requires
            can_intern(
                old(self).resources@,
                ResourceKind::ExtGState,
                soft_mask_key(form_name@, subtype@, opt_view(transfer_name)),
            ),
        ensures
            final(self).resources@.wf(),
            interns(
                old(self).resources@,
                final(self).resources@,
                ResourceKind::ExtGState,
                name@,
                soft_mask_key(form_name@, subtype@, opt_view(transfer_name)),
                soft_mask_pdf_dict(form_name@, subtype@, opt_view(transfer_name)),
                soft_mask_dvi_dict(form_name@, subtype@, opt_view(transfer_name)),
                Seq::empty(),
            ),
            same_but_resources(final(self), old(self)),
    {
        let ghost tr = opt_view(transfer_name);
        let mut key = String::new();
        key.append("soft-mask/");
        key.append(subtype);
        key.append("/");
        key.append(form_name);
        key.append("/");
        let mut pdf_dict = String::new();
        pdf_dict.append("<</Type/ExtGState /SMask <</S /");
        pdf_dict.append(subtype);
        pdf_dict.append(" /G ");
        push_tex_obj_ref(&mut pdf_dict, form_name);
        let mut dvi_dict = String::new();
        dvi_dict.append("<</Type/ExtGState /SMask <</S /");
        dvi_dict.append(subtype);
        dvi_dict.append(" /G @");
        dvi_dict.append(form_name);
        match transfer_name {
            Some(t) => {
                key.append(t);
                pdf_dict.append(" /TR ");
                push_tex_obj_ref(&mut pdf_dict, t);
                dvi_dict.append(" /TR @");
                dvi_dict.append(t);
            },
            None => {
                key.append("identity");
            },
        }
        pdf_dict.append(">>>>");
        dvi_dict.append(">>>>");
        proof {
            assert(key@ =~= soft_mask_key(form_name@, subtype@, tr));
            assert(pdf_dict@ =~= soft_mask_pdf_dict(form_name@, subtype@, tr));
            assert(dvi_dict@ =~= soft_mask_dvi_dict(form_name@, subtype@, tr));
        }
        self.ensure_ext_gstate_with_dicts(key, pdf_dict, dvi_dict)
    }

    /// Interns a PDF function under `key`; returns its name (`Fn<n>`).
    pub fn ensure_function(&mut self, key: String, pdf_dict: String, dvi_dict: String) -> (name: String)
        requires
            can_intern(old(self).resources@, ResourceKind::Function, key@),
        ensures
            final(self).resources@.wf(),
            interns(old(self).resources@, final(self).resources@, ResourceKind::Function, name@, key@, pdf_dict@, dvi_dict@, Seq::empty()),
            same_but_resources(final(self), old(self)),
    {
        let r = &mut self.resources;
        intern(&mut r.functions, &mut r.next_id, "Fn", key, pdf_dict, dvi_dict, Vec::new())
    }

    /// Interns a shading under `key`; returns its name (`Sh<n>`). All backends
    /// write the same dictionary.
    pub fn ensure_shading(&mut self, key: String, dict: String) -> (name: String)
        requires
            can_intern(old(self).resources@, ResourceKind::Shading, key@),
        ensures
            final(self).resources@.wf(),
            interns(old(self).resources@, final(self).resources@, ResourceKind::Shading, name@, key@, dict@, dict@, Seq::empty()),
            same_but_resources(final(self), old(self)),
    {
        let dvi_dict = dict.clone();
        let r = &mut self.resources;
        intern(&mut r.shadings, &mut r.next_id, "Sh", key, dict, dvi_dict, Vec::new())
    }

    /// Interns a form XObject under `key`; returns its name (`Fm<n>`).
    pub fn ensure_form(&mut self, key: String, pdf_dict: String, dvi_dict: String, stream: Vec<u8>) -> (name: String)
        requires
            can_intern(old(self).resources@, ResourceKind::Form, key@),
        ensures
            final(self).resources@.wf(),
            interns(old(self).resources@, final(self).resources@, ResourceKind::Form, name@, key@, pdf_dict@, dvi_dict@, stream@),
            same_but_resources(final(self), old(self)),
    {
        let r = &mut self.resources;
        intern(&mut r.forms, &mut r.next_id, "Fm", key, pdf_dict, dvi_dict, stream)
    }

    /// Interns a tiling pattern under `key`; returns its name (`Pt<n>`).
    pub fn ensure_pattern(&mut self, key: String, pdf_dict: String, dvi_dict: String, stream: Vec<u8>) -> (name: String)
        requires
            can_intern(old(self).resources@, ResourceKind::Pattern, key@),
        ensures
            final(self).resources@.wf(),
            interns(old(self).resources@, final(self).resources@, ResourceKind::Pattern, name@, key@, pdf_dict@, dvi_dict@, stream@),
            same_but_resources(final(self), old(self)),
    {
        let r = &mut self.resources;
        intern(&mut r.patterns, &mut r.next_id, "Pt", key, pdf_dict, dvi_dict, stream)
    }

    /// The name of the form interned under `key`, if any.
    pub fn form_name(&self, key: &String) -> (r: Option<String>)
        ensures
            r matches Some(n) ==> lookup(self.resources@.forms, key@) matches Some(e) && n@ == e.name@,
            r is None ==> lookup(self.resources@.forms, key@) is None,
    {
        match find_key(&self.resources.forms, key) {
            Some(i) => Some(self.resources.forms[i].name.clone()),
            None => None,
        }
    }

    /// The name of the pattern interned under `key`, if any.
    pub fn pattern_name(&self, key: &String) -> (r: Option<String>)
        ensures
            r matches Some(n) ==> lookup(self.resources@.patterns, key@) matches Some(e) && n@ == e.name@,
            r is None ==> lookup(self.resources@.patterns, key@) is None,
    {
        match find_key(&self.resources.patterns, key) {
            Some(i) => Some(self.resources.patterns[i].name.clone()),
            None => None,
        }
    }

    /// Positions of the functions in byte order of their names.
    pub fn sorted_functions(&self) -> (order: Vec<usize>)
        ensures
            order@ == order_by_key(entry_names(self.resources@.functions)),
            forall|k: int| 0 <= k < order@.len() ==> order@[k] < self.resources@.functions.len(),
    {
        sorted_order(&names_of(&self.resources.functions))
    }

    /// Positions of the graphics states in byte order of their names.
    pub fn sorted_ext_gstates(&self) -> (order: Vec<usize>)
        ensures
            order@ == order_by_key(entry_names(self.resources@.ext_gstates)),
            forall|k: int| 0 <= k < order@.len() ==> order@[k] < self.resources@.ext_gstates.len(),
    {
        sorted_order(&names_of(&self.resources.ext_gstates))
    }

    /// Positions of the images in byte order of their names.
    pub fn sorted_images(&self) -> (order: Vec<usize>)
        ensures
            order@ == order_by_key(image_names(self.resources@.images)),
            forall|k: int| 0 <= k < order@.len() ==> order@[k] < self.resources@.images.len(),
    {
        sorted_order(&image_names_of(&self.resources.images))
    }

    /// Positions of the shadings in byte order of their names.
    pub fn sorted_shadings(&self) -> (order: Vec<usize>)
        ensures
            order@ == order_by_key(entry_names(self.resources@.shadings)),
            forall|k: int| 0 <= k < order@.len() ==> order@[k] < self.resources@.shadings.len(),
    {
        sorted_order(&names_of(&self.resources.shadings))
    }

    /// Positions of the forms in byte order of their names.
    pub fn sorted_forms(&self) -> (order: Vec<usize>)
        ensures
            order@ == order_by_key(entry_names(self.resources@.forms)),
            forall|k: int| 0 <= k < order@.len() ==> order@[k] < self.resources@.forms.len(),
    {
        sorted_order(&names_of(&self.resources.forms))
    }

    /// Positions of the patterns in byte order of their names.
    pub fn sorted_patterns(&self) -> (order: Vec<usize>)
        ensures
            order@ == order_by_key(entry_names(self.resources@.patterns)),
            forall|k: int| 0 <= k < order@.len() ==> order@[k] < self.resources@.patterns.len(),
    {
        sorted_order(&names_of(&self.resources.patterns))
    }

    pub(crate) fn xobject_ref_items(&self, dvi: bool) -> (items: Vec<String>)
        ensures
            views(items@) == xobject_items(self.resources@, dvi),
    {
        let mut items: Vec<String> = Vec::new();
        push_ref_items(&mut items, &sorted_strings(&image_names_of(&self.resources.images)), dvi);
        push_ref_items(&mut items, &sorted_strings(&names_of(&self.resources.forms)), dvi);
        proof {
            assert(views(items@) =~= xobject_items(self.resources@, dvi));
        }
        items
    }

    pub(crate) fn kind_ref_items(list: &Vec<ResourceEntry>, dvi: bool) -> (items: Vec<String>)
        ensures
            views(items@) == ref_items(sorted_entry_names(list@), dvi),
    {
        let mut items: Vec<String> = Vec::new();
        push_ref_items(&mut items, &sorted_strings(&names_of(list)), dvi);
        proof {
            assert(views(items@) =~= ref_items(sorted_entry_names(list@), dvi));
        }
        items
    }

    fn resource_dict(&self, include_patterns: bool, dvi: bool) -> (r: String)
        ensures
            r@ == inline_resource_dict(self.resources@, include_patterns, dvi),
    {
        let mut sections: Vec<String> = Vec::new();
        push_section(&mut sections, "/ExtGState<<", &Self::kind_ref_items(&self.resources.ext_gstates, dvi), ">>");
        push_section(&mut sections, "/Shading<<", &Self::kind_ref_items(&self.resources.shadings, dvi), ">>");
        if include_patterns {
            push_section(&mut sections, "/Pattern<<", &Self::kind_ref_items(&self.resources.patterns, dvi), ">>");
        }
        push_section(&mut sections, "/XObject<<", &self.xobject_ref_items(dvi), ">>");
        proof {
            assert(views(sections@) =~= inline_sections(self.resources@, include_patterns, dvi));
        }
        if sections.len() == 0 {
            String::new()
        } else {
            let mut r = String::new();
            r.append("<<");
            let joined = join_strings(sections.as_slice(), " ");
            r.append(joined.as_str());
            r.append(">>");
            r
        }
    }

    /// The resource dictionary, for pdfTeX/LuaTeX, of a form or pattern that may
    /// use any object registered so far (empty when nothing is registered).
    pub fn inline_pdf_resource_dict(&self, include_patterns: bool) -> (r: String)
        ensures
            r@ == inline_resource_dict(self.resources@, include_patterns, false),
    {
        self.resource_dict(include_patterns, false)
    }

    /// The same resource dictionary, for the DVI backend.
    pub fn inline_dvi_resource_dict(&self, include_patterns: bool) -> (r: String)
        ensures
            r@ == inline_resource_dict(self.resources@, include_patterns, true),
    {
        self.resource_dict(include_patterns, true)
    }

    /// Interns a transparency-group form XObject with bounding box `bbox` (four
    /// numbers, already written out) and the group colour space `color_space`;
    /// its resources are all objects registered before it.
    pub fn ensure_group_form(&mut self, key: String, bbox: &str, color_space: &str, stream: Vec<u8>) -> (name: String)
        requires
            can_intern(old(self).resources@, ResourceKind::Form, key@),
        ensures
            final(self).resources@.wf(),
            interns(
                old(self).resources@,
                final(self).resources@,
                ResourceKind::Form,
                name@,
                key@,
                group_form_pdf_dict(bbox@, color_space@, inline_resource_dict(old(self).resources@, true, false)),
                group_form_dvi_dict(bbox@, color_space@, inline_resource_dict(old(self).resources@, true, true)),
                stream@,
            ),
            same_but_resources(final(self), old(self)),
    {
        let pdf_resources = self.inline_pdf_resource_dict(true);
        let dvi_resources = self.inline_dvi_resource_dict(true);
        let mut pdf_dict = String::new();
        pdf_dict.append("<</Type/XObject/Subtype/Form/BBox [");
        pdf_dict.append(bbox);
        pdf_dict.append("] /Group <</S /Transparency /CS /");
        pdf_dict.append(color_space);
        pdf_dict.append(">> /Resources ");
        if pdf_resources.as_str().is_empty() {
            pdf_dict.append("<<>>");
        } else {
            pdf_dict.append(pdf_resources.as_str());
        }
        pdf_dict.append(" /Filter [/ASCIIHexDecode]>>");
        let mut dvi_dict = String::new();
        dvi_dict.append("<</Type/XObject/Subtype/Form/BBox [");
        dvi_dict.append(bbox);
        dvi_dict.append("] /Group <</S /Transparency /CS /");
        dvi_dict.append(color_space);
        dvi_dict.append(">> /Resources ");
        if dvi_resources.as_str().is_empty() {
            dvi_dict.append("<<>>");
        } else {
            dvi_dict.append(dvi_resources.as_str());
        }
        dvi_dict.append(" /Filter /ASCIIHexDecode>>");
        proof {
            assert(pdf_dict@ =~= group_form_pdf_dict(bbox@, color_space@, pdf_resources@));
            assert(dvi_dict@ =~= group_form_dvi_dict(bbox@, color_space@, dvi_resources@));
        }
        self.ensure_form(key, pdf_dict, dvi_dict, stream)
    }

    /// Interns a transparency-group form in the RGB colour space.
    pub fn ensure_transparency_form(&mut self, key: String, bbox: &str, stream: Vec<u8>) -> (name: String)
        requires
            can_intern(old(self).resources@, ResourceKind::Form, key@),
        ensures
            final(self).resources@.wf(),
            interns(
                old(self).resources@,
                final(self).resources@,
                ResourceKind::Form,
                name@,
                key@,
                group_form_pdf_dict(bbox@, "DeviceRGB"@, inline_resource_dict(old(self).resources@, true, false)),
                group_form_dvi_dict(bbox@, "DeviceRGB"@, inline_resource_dict(old(self).resources@, true, true)),
                stream@,
            ),
            same_but_resources(final(self), old(self)),
    {
        self.ensure_group_form(key, bbox, "DeviceRGB", stream)
    }

    /// Interns a transparency-group form in the gray colour space (an alpha mask).
    pub fn ensure_spread_alpha_form(&mut self, key: String, bbox: &str, stream: Vec<u8>) -> (name: String)
        requires
            can_intern(old(self).resources@, ResourceKind::Form, key@),
        ensures
            final(self).resources@.wf(),
            interns(
                old(self).resources@,
                final(self).resources@,
                ResourceKind::Form,
                name@,
                key@,
                group_form_pdf_dict(bbox@, "DeviceGray"@, inline_resource_dict(old(self).resources@, true, false)),
                group_form_dvi_dict(bbox@, "DeviceGray"@, inline_resource_dict(old(self).resources@, true, true)),
                stream@,
            ),
            same_but_resources(final(self), old(self)),
    {
        self.ensure_group_form(key, bbox, "DeviceGray", stream)
    }
}

// ---------------------------------------------------------------------------
// Laws of interning
// ---------------------------------------------------------------------------

proof fn lemma_lookup_push(list: Seq<ResourceEntry>, e: ResourceEntry, key: Seq<char>)
    requires
        lookup(list, key) is None,
        e.key@ == key,
    ensures
        lookup(list.push(e), key) == Some(e),
    decreases list.len(),
{
    if list.len() > 0 {
        assert(list.push(e).drop_first() =~= list.drop_first().push(e));
        lemma_lookup_push(list.drop_first(), e, key);
    }
}

proof fn lemma_resource_name_injective(prefix: Seq<char>, a: nat, b: nat)
    requires
        resource_name(prefix, a) == resource_name(prefix, b),
    ensures
        a == b,
{
    assert(resource_name(prefix, a).skip(prefix.len() as int) =~= decimal(a));
    assert(resource_name(prefix, b).skip(prefix.len() as int) =~= decimal(b));
    lemma_decimal_injective(a, b);
}

/// After interning `key`, the kind holds it under the name handed back.
pub proof fn lemma_interned_present(
    old: ResourcesView,
    new: ResourcesView,
    kind: ResourceKind,
    name: Seq<char>,
    key: Seq<char>,
    pdf_dict: Seq<char>,
    dvi_dict: Seq<char>,
    stream: Seq<u8>,
)
    requires
        interns(old, new, kind, name, key, pdf_dict, dvi_dict, stream),
    ensures
        lookup(kind_entries(new, kind), key) matches Some(e) && e.name@ == name,
{
    let l0 = kind_entries(old, kind);
    let l1 = kind_entries(new, kind);
    if lookup(l0, key) is None {
        assert(l1 =~= l0.push(l1.last()));
        lemma_lookup_push(l0, l1.last(), key);
    }
}

/// Interning is idempotent: interning a key right after it was interned hands
/// back the same name and leaves the registry as it was, whatever dictionaries
/// and stream come with the second request.
pub proof fn lemma_intern_idempotent(
    r0: ResourcesView,
    r1: ResourcesView,
    r2: ResourcesView,
    kind: ResourceKind,
    key: Seq<char>,
    name1: Seq<char>,
    name2: Seq<char>,
    pdf_dict1: Seq<char>,
    dvi_dict1: Seq<char>,
    stream1: Seq<u8>,
    pdf_dict2: Seq<char>,
    dvi_dict2: Seq<char>,
    stream2: Seq<u8>,
)
    requires
        interns(r0, r1, kind, name1, key, pdf_dict1, dvi_dict1, stream1),
        interns(r1, r2, kind, name2, key, pdf_dict2, dvi_dict2, stream2),
    ensures
        name2 == name1,
        r2 == r1,
{
    let l0 = kind_entries(r0, kind);
    let l1 = kind_entries(r1, kind);
    if lookup(l0, key) is None {
        assert(l1 =~= l0.push(l1.last()));
        lemma_lookup_push(l0, l1.last(), key);
    }
    assert(lookup(l1, key) is Some);
    assert(kind_entries(r2, kind) == l1);
    assert(kind_entries(r2, ResourceKind::ExtGState) == kind_entries(r1, ResourceKind::ExtGState));
    assert(kind_entries(r2, ResourceKind::Function) == kind_entries(r1, ResourceKind::Function));
    assert(kind_entries(r2, ResourceKind::Shading) == kind_entries(r1, ResourceKind::Shading));
    assert(kind_entries(r2, ResourceKind::Form) == kind_entries(r1, ResourceKind::Form));
    assert(kind_entries(r2, ResourceKind::Pattern) == kind_entries(r1, ResourceKind::Pattern));
    assert(r2 =~= r1);
}

/// Interning a key that is new to its kind stores it under a fresh name: one
/// that no object of that kind had before.
pub proof fn lemma_intern_fresh_name(
    r0: ResourcesView,
    r1: ResourcesView,
    kind: ResourceKind,
    key: Seq<char>,
    name: Seq<char>,
    pdf_dict: Seq<char>,
    dvi_dict: Seq<char>,
    stream: Seq<u8>,
)
    requires
        r0.wf(),
        interns(r0, r1, kind, name, key, pdf_dict, dvi_dict, stream),
        lookup(kind_entries(r0, kind), key) is None,
    ensures
        forall|i: int|
            0 <= i < kind_entries(r0, kind).len() ==> (#[trigger] kind_entries(r0, kind)[i]).name@ != name,
{
    let l0 = kind_entries(r0, kind);
    assert(kind_wf(l0, kind_prefix(kind), r0.next_id));
    assert forall|i: int| 0 <= i < l0.len() implies (#[trigger] l0[i]).name@ != name by {
        if l0[i].name@ == name {
            lemma_resource_name_injective(kind_prefix(kind), l0[i].id as nat, r0.next_id);
        }
    }
}

/// In a well-formed registry the objects of one kind have distinct names.
pub proof fn lemma_names_distinct(r: ResourcesView, kind: ResourceKind)
    requires
        r.wf(),
    ensures
        forall|i: int, j: int|
            0 <= i < j < kind_entries(r, kind).len() ==> (#[trigger] kind_entries(r, kind)[i]).name@
                != (#[trigger] kind_entries(r, kind)[j]).name@,
{
    let l = kind_entries(r, kind);
    assert(kind_wf(l, kind_prefix(kind), r.next_id));
    assert forall|i: int, j: int| 0 <= i < j < l.len() implies (#[trigger] l[i]).name@ != (#[trigger] l[j]).name@ by {
        if l[i].name@ == l[j].name@ {
            lemma_resource_name_injective(kind_prefix(kind), l[i].id as nat, l[j].id as nat);
        }
    }
}

/// Objects are emitted in ascending byte order of their names, each exactly
/// once: the emission order is a permutation of the positions and never puts
/// a name before one that precedes it.
pub proof fn lemma_emission_order(list: Seq<ResourceEntry>)
    ensures
        order_by_key(entry_names(list)).to_multiset() == indices(list.len()).to_multiset(),
        forall|i: int, j: int|
            0 <= i < j < list.len() ==> !str_lt(
                #[trigger] sorted_entries(list)[j].name@,
                #[trigger] sorted_entries(list)[i].name@,
            ),
        sorted_entries(list).len() == list.len(),
{
    broadcast use vstd::seq_lib::group_to_multiset_ensures;
    let names = entry_names(list);
    let n = list.len();
    let idx = indices(n);
    let o = order_by_key(names);
    lemma_key_lt_strict(names);
    lemma_sort_by_props(idx, key_lt(names));
    assert(o.len() == n) by {
        assert(o.to_multiset().len() == o.len());
        assert(idx.to_multiset().len() == idx.len());
    }
    assert forall|k: int| 0 <= k < o.len() implies #[trigger] o[k] < n by {
        assert(o.contains(o[k]));
        assert(idx.to_multiset().count(o[k]) > 0);
        assert(idx.contains(o[k]));
    }
    let sorted = sorted_entries(list);
    assert forall|i: int, j: int| 0 <= i < j < list.len() implies !str_lt(
        #[trigger] sorted[j].name@,
        #[trigger] sorted[i].name@,
    ) by {
        assert(o[i] < n && o[j] < n);
        assert(!key_lt(names)(o[j], o[i]));
        assert(sorted[j] == list[o[j] as int]);
        assert(sorted[i] == list[o[i] as int]);
        assert(names[o[j] as int] == list[o[j] as int].name@);
        assert(names[o[i] as int] == list[o[i] as int].name@);
    }
}

} // verus!
