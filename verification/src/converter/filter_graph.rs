//! Native rendering of filter graphs: every intermediate filter result is a
//! transparency-group form XObject interned under a key made of its inputs and
//! its region, so that equal sub-graphs are written once. Regions and colours
//! come in already written out (six decimals), so that all that happens here
//! is the naming, the composition of the drawing streams and the interning.

use vstd::prelude::*;

use super::paint::{blend_mode_label, blend_mode_name, BlendMode};
use super::resources::{
    kind_entries, ext_gstate_dict, group_form_dvi_dict, group_form_pdf_dict, inline_resource_dict, interns,
    lemma_intern_idempotent, lemma_interned_present, lookup,
    same_but_resources, soft_mask_dvi_dict, soft_mask_key, soft_mask_pdf_dict, ResourceKind,
    ResourcesView,
};
use super::PdfConverter;
use crate::text::{concat_all, join, join_strings, views};
use vstd::utf8::encode_utf8;

verus! {

/// A filter region, written out three ways: `x y w h`, `x/y/w/h` (as it
/// appears in keys) and the bounding box `x0 y0 x1 y1`.
pub struct FilterRect {
    pub xywh: String,
    pub key: String,
    pub bbox: String,
}

/// The forms that hold a filter result: its colour and its alpha.
pub struct FilterForms {
    pub form_name: String,
    pub alpha_form_name: String,
}

/// A flood colour written out: its key part `r/g/b/opacity`, its fill colour
/// `r g b` (components in [0, 1]), its opacity and whether it is below one.
pub struct FloodPaint {
    pub key: String,
    pub rgb: String,
    pub opacity: String,
    pub translucent: bool,
}

/// The red, green and blue transfer functions of `feComponentTransfer`:
/// their keys and their PDF function dictionaries.
pub struct TransferFunctions {
    pub r_key: String,
    pub g_key: String,
    pub b_key: String,
    pub r_dict: String,
    pub g_dict: String,
    pub b_dict: String,
}

/// The operators of `feComposite`.
#[derive(Clone, Copy, PartialEq, Eq, Structural)]
pub enum CompositeOperator {
    Over,
    In,
    Out,
    Atop,
    Xor,
    Arithmetic,
}

// ---------------------------------------------------------------------------
// What each form is
// ---------------------------------------------------------------------------

/// The registry is well formed and `n` more objects can be numbered.
pub open spec fn room(r: ResourcesView, n: nat) -> bool {
    r.wf() && r.next_id + n <= usize::MAX
}

/// The operators that clip to a region.
pub open spec fn clip_ops(rect: FilterRect) -> Seq<char> {
    rect.xywh@ + " re W n"@
}

/// `new` is `old` with the transparency form `key` over `bbox`, drawing
/// `stream`, interned as `name` (its resources: everything registered before).
pub open spec fn form_made(
    old: ResourcesView,
    new: ResourcesView,
    name: Seq<char>,
    key: Seq<char>,
    bbox: Seq<char>,
    stream: Seq<char>,
) -> bool {
    interns(
        old,
        new,
        ResourceKind::Form,
        name,
        key,
        group_form_pdf_dict(bbox, "DeviceRGB"@, inline_resource_dict(old, true, false)),
        group_form_dvi_dict(bbox, "DeviceRGB"@, inline_resource_dict(old, true, true)),
        encode_utf8(stream),
    )
}

/// The key of `input` clipped to `rect`.
pub open spec fn clipped_key(input: Seq<char>, rect: FilterRect) -> Seq<char> {
    "filter/clipped/"@ + input + "/"@ + rect.key@
}

/// The drawing of `input` clipped to `rect`.
pub open spec fn clipped_stream(input: Seq<char>, rect: FilterRect) -> Seq<char> {
    "q "@ + clip_ops(rect) + " /"@ + input + " Do Q"@
}

/// `input` clipped to `rect` is interned as `name`.
#[verifier::opaque]
pub open spec fn clipped_made(old: ResourcesView, new: ResourcesView, name: Seq<char>, input: Seq<char>, rect: FilterRect) -> bool {
    form_made(old, new, name, clipped_key(input, rect), rect.bbox@, clipped_stream(input, rect))
}

/// The key of the forms `inputs` drawn over each other within `rect`.
pub open spec fn merge_key(inputs: Seq<Seq<char>>, rect: FilterRect) -> Seq<char> {
    "filter/merge/"@ + join(inputs, ","@) + "/"@ + rect.key@
}

/// The drawing of `inputs` in order within `rect`.
pub open spec fn merge_stream(inputs: Seq<Seq<char>>, rect: FilterRect) -> Seq<char> {
    "q "@ + clip_ops(rect) + " "@ + concat_all(inputs.map_values(|f: Seq<char>| "/"@ + f + " Do "@)) + "Q"@
}

/// The merge of `inputs` within `rect` is interned as `name`.
#[verifier::opaque]
pub open spec fn merge_made(old: ResourcesView, new: ResourcesView, name: Seq<char>, inputs: Seq<Seq<char>>, rect: FilterRect) -> bool {
    form_made(old, new, name, merge_key(inputs, rect), rect.bbox@, merge_stream(inputs, rect))
}

/// The key of `input` shifted by `dx`, `dy` within `rect`.
pub open spec fn offset_key(input: Seq<char>, rect: FilterRect, dx: Seq<char>, dy: Seq<char>) -> Seq<char> {
    "filter/offset/"@ + input + "/"@ + dx + "/"@ + dy + "/"@ + rect.key@
}

/// The drawing of `input` shifted by `dx`, `dy` within `rect`.
pub open spec fn offset_stream(input: Seq<char>, rect: FilterRect, dx: Seq<char>, dy: Seq<char>) -> Seq<char> {
    "q "@ + clip_ops(rect) + " "@ + dx + " "@ + dy + " cm /"@ + input + " Do Q"@
}

/// The shifted `input` is interned as `name`.
#[verifier::opaque]
pub open spec fn offset_made(
    old: ResourcesView,
    new: ResourcesView,
    name: Seq<char>,
    input: Seq<char>,
    rect: FilterRect,
    dx: Seq<char>,
    dy: Seq<char>,
) -> bool {
    form_made(old, new, name, offset_key(input, rect, dx, dy), rect.bbox@, offset_stream(input, rect, dx, dy))
}

// ---------------------------------------------------------------------------
// Single forms
// ---------------------------------------------------------------------------

/// Appends the bytes of a string to a stream under construction.
fn stream_bytes(s: &String) -> (r: Vec<u8>)
    ensures
        r@ == encode_utf8(s@),
{
    vstd::slice::slice_to_vec(s.as_str().as_bytes())
}

impl PdfConverter {
    /// `input_form` clipped to `rect`.
    pub fn ensure_clipped_form(&mut self, input_form: &str, rect: &FilterRect) -> (name: String)
        requires
            room(old(self).resources@, 1),
        ensures
            clipped_made(old(self).resources@, final(self).resources@, name@, input_form@, *rect),
            final(self).resources@.wf(),
            final(self).resources@.next_id <= old(self).resources@.next_id + 1,
            same_but_resources(final(self), old(self)),
    {
        proof {
            reveal(clipped_made);
        }
        let mut key = String::new();
        key.append("filter/clipped/");
        key.append(input_form);
        key.append("/");
        key.append(rect.key.as_str());
        let mut s = String::new();
        s.append("q ");
        s.append(rect.xywh.as_str());
        s.append(" re W n");
        s.append(" /");
        s.append(input_form);
        s.append(" Do Q");
        proof {
            assert(key@ =~= clipped_key(input_form@, *rect));
            assert(s@ =~= clipped_stream(input_form@, *rect));
        }
        let stream = stream_bytes(&s);
        self.ensure_transparency_form(key, rect.bbox.as_str(), stream)
    }

    /// The forms `input_forms` drawn over each other within `rect`.
    pub fn ensure_merge_form(&mut self, rect: &FilterRect, input_forms: &Vec<String>) -> (name: String)
        requires
            room(old(self).resources@, 1),
        ensures
            merge_made(old(self).resources@, final(self).resources@, name@, views(input_forms@), *rect),
            final(self).resources@.wf(),
            final(self).resources@.next_id <= old(self).resources@.next_id + 1,
            same_but_resources(final(self), old(self)),
    {
        proof {
            reveal(merge_made);
        }
        let ghost ins = views(input_forms@);
        let ghost draws = ins.map_values(|f: Seq<char>| "/"@ + f + " Do "@);
        let mut key = String::new();
        key.append("filter/merge/");
        let joined = join_strings(input_forms.as_slice(), ",");
        key.append(joined.as_str());
        key.append("/");
        key.append(rect.key.as_str());
        let mut s = String::new();
        s.append("q ");
        s.append(rect.xywh.as_str());
        s.append(" re W n");
        s.append(" ");
        let ghost head = s@;
        let mut i: usize = 0;
        while i < input_forms.len()
            invariant
                ins == views(input_forms@),
                draws == ins.map_values(|f: Seq<char>| "/"@ + f + " Do "@),
                i <= input_forms@.len(),
                s@ == head + concat_all(draws.take(i as int)),
            decreases input_forms@.len() - i,
        {
            s.append("/");
            s.append(input_forms[i].as_str());
            s.append(" Do ");
            proof {
                assert(draws.take(i + 1).drop_last() =~= draws.take(i as int));
                assert(draws.take(i + 1).last() == "/"@ + input_forms@[i as int]@ + " Do "@);
            }
            i = i + 1;
        }
        s.append("Q");
        proof {
            assert(draws.take(i as int) =~= draws);
            assert(key@ =~= merge_key(ins, *rect));
            assert(s@ =~= merge_stream(ins, *rect));
        }
        let stream = stream_bytes(&s);
        self.ensure_transparency_form(key, rect.bbox.as_str(), stream)
    }

    /// `input_form` shifted by `dx`, `dy` (written out) within `rect`.
    pub fn ensure_offset_form(&mut self, input_form: &str, rect: &FilterRect, dx: &str, dy: &str) -> (name: String)
        requires
            room(old(self).resources@, 1),
        ensures
            offset_made(old(self).resources@, final(self).resources@, name@, input_form@, *rect, dx@, dy@),
            final(self).resources@.wf(),
            final(self).resources@.next_id <= old(self).resources@.next_id + 1,
            same_but_resources(final(self), old(self)),
    {
        proof {
            reveal(offset_made);
        }
        let mut key = String::new();
        key.append("filter/offset/");
        key.append(input_form);
        key.append("/");
        key.append(dx);
        key.append("/");
        key.append(dy);
        key.append("/");
        key.append(rect.key.as_str());
        let mut s = String::new();
        s.append("q ");
        s.append(rect.xywh.as_str());
        s.append(" re W n");
        s.append(" ");
        s.append(dx);
        s.append(" ");
        s.append(dy);
        s.append(" cm /");
        s.append(input_form);
        s.append(" Do Q");
        proof {
            assert(key@ =~= offset_key(input_form@, *rect, dx@, dy@));
            assert(s@ =~= offset_stream(input_form@, *rect, dx@, dy@));
        }
        let stream = stream_bytes(&s);
        self.ensure_transparency_form(key, rect.bbox.as_str(), stream)
    }
}


// ---------------------------------------------------------------------------
// Forms that need a graphics state first
// ---------------------------------------------------------------------------

/// The drawing of `input` through the graphics state `gs`, clipped to `rect`.
pub open spec fn gs_stream(rect: FilterRect, gs: Seq<char>, input: Seq<char>) -> Seq<char> {
    "q "@ + clip_ops(rect) + " /"@ + gs + " gs /"@ + input + " Do Q"@
}

/// `new` is `old` with the graphics state of the single entry `entry` interned as `gs`.
pub open spec fn entry_gstate_made(old: ResourcesView, new: ResourcesView, gs: Seq<char>, entry: Seq<char>) -> bool {
    interns(old, new, ResourceKind::ExtGState, gs, entry, ext_gstate_dict(seq![entry]), ext_gstate_dict(seq![entry]), Seq::empty())
}

/// `new` is `old` with the soft-mask graphics state of `form` interned as `gs`.
pub open spec fn soft_mask_made(
    old: ResourcesView,
    new: ResourcesView,
    gs: Seq<char>,
    form: Seq<char>,
    subtype: Seq<char>,
    transfer: Option<Seq<char>>,
) -> bool {
    interns(
        old,
        new,
        ResourceKind::ExtGState,
        gs,
        soft_mask_key(form, subtype, transfer),
        soft_mask_pdf_dict(form, subtype, transfer),
        soft_mask_dvi_dict(form, subtype, transfer),
        Seq::empty(),
    )
}

/// The key of a flood of `paint_key` over `rect`.
pub open spec fn flood_key(paint_key: Seq<char>, rect: FilterRect) -> Seq<char> {
    "filter/flood/"@ + paint_key + "/"@ + rect.key@
}

/// The fill of `rect` with `rgb`, through the opacity state `gs` if any.
pub open spec fn flood_stream(rgb: Seq<char>, rect: FilterRect, gs: Option<Seq<char>>) -> Seq<char> {
    "q "@ + match gs {
        Some(g) => "/"@ + g + " gs "@,
        None => Seq::empty(),
    } + rgb + " rg "@ + rect.xywh@ + " re f Q"@
}

/// A flood of `rect` is interned as `name`: a translucent one first interns
/// its fill-opacity graphics state.
#[verifier::opaque]
pub open spec fn flood_made(
    old: ResourcesView,
    new: ResourcesView,
    name: Seq<char>,
    paint_key: Seq<char>,
    rgb: Seq<char>,
    opacity: Seq<char>,
    translucent: bool,
    rect: FilterRect,
) -> bool {
    match lookup(old.forms, flood_key(paint_key, rect)) {
        Some(e) => new == old && name == e.name@,
        None => if translucent {
            exists|mid: ResourcesView, gs: Seq<char>|
                #[trigger] entry_gstate_made(old, mid, gs, "/ca "@ + opacity) && form_made(
                    mid,
                    new,
                    name,
                    flood_key(paint_key, rect),
                    rect.bbox@,
                    flood_stream(rgb, rect, Some(gs)),
                )
        } else {
            form_made(old, new, name, flood_key(paint_key, rect), rect.bbox@, flood_stream(rgb, rect, None))
        },
    }
}

/// The key of `source` blended over `backdrop` within `rect`.
pub open spec fn blend_key(backdrop: Seq<char>, source: Seq<char>, mode: BlendMode, rect: FilterRect) -> Seq<char> {
    "filter/blend/"@ + backdrop + "/"@ + source + "/"@ + blend_mode_label(mode) + "/"@ + rect.key@
}

/// The drawing of `backdrop`, then `source` with the blend state `gs`.
pub open spec fn blend_stream(rect: FilterRect, backdrop: Seq<char>, gs: Seq<char>, source: Seq<char>) -> Seq<char> {
    "q "@ + clip_ops(rect) + " /"@ + backdrop + " Do /"@ + gs + " gs /"@ + source + " Do Q"@
}

/// The blend is interned as `name`, after its blend-mode graphics state.
#[verifier::opaque]
pub open spec fn blend_made(
    old: ResourcesView,
    new: ResourcesView,
    name: Seq<char>,
    rect: FilterRect,
    backdrop: Seq<char>,
    source: Seq<char>,
    mode: BlendMode,
) -> bool {
    match lookup(old.forms, blend_key(backdrop, source, mode, rect)) {
        Some(e) => new == old && name == e.name@,
        None => exists|mid: ResourcesView, gs: Seq<char>|
            #[trigger] entry_gstate_made(old, mid, gs, "/BM/"@ + blend_mode_label(mode)) && form_made(
                mid,
                new,
                name,
                blend_key(backdrop, source, mode, rect),
                rect.bbox@,
                blend_stream(rect, backdrop, gs, source),
            ),
    }
}

/// The key of `input` masked by the alpha of `mask` (inverted or not).
pub open spec fn masked_key(input: Seq<char>, mask: Seq<char>, invert: bool, rect: FilterRect) -> Seq<char> {
    "filter/masked/"@ + input + "/"@ + mask + "/"@ + (if invert {
        "true"@
    } else {
        "false"@
    }) + "/"@ + rect.key@
}

/// The key and the dictionary of the function that inverts a mask.
pub open spec fn invert_key() -> Seq<char> {
    "filter/transfer/invert"@
}

pub open spec fn invert_dict() -> Seq<char> {
    "<< /FunctionType 2 /Domain [0 1] /C0 [1] /C1 [0] /N 1 >>"@
}

/// `input` masked by `mask` is interned as `name`: an inverted mask first
/// interns the inverting function, then the soft-mask state, then the form.
#[verifier::opaque]
pub open spec fn masked_made(
    old: ResourcesView,
    new: ResourcesView,
    name: Seq<char>,
    rect: FilterRect,
    input: Seq<char>,
    mask: Seq<char>,
    invert: bool,
) -> bool {
    match lookup(old.forms, masked_key(input, mask, invert, rect)) {
        Some(e) => new == old && name == e.name@,
        None => if invert {
            exists|m1: ResourcesView, t: Seq<char>, m2: ResourcesView, gs: Seq<char>|
                #[trigger] interns(old, m1, ResourceKind::Function, t, invert_key(), invert_dict(), invert_dict(), Seq::empty())
                    && #[trigger] soft_mask_made(m1, m2, gs, mask, "Alpha"@, Some(t))
                    && form_made(m2, new, name, masked_key(input, mask, invert, rect), rect.bbox@, gs_stream(rect, gs, input))
        } else {
            exists|m2: ResourcesView, gs: Seq<char>|
                #[trigger] soft_mask_made(old, m2, gs, mask, "Alpha"@, None)
                    && form_made(m2, new, name, masked_key(input, mask, invert, rect), rect.bbox@, gs_stream(rect, gs, input))
        },
    }
}

/// The paint of a black, opaque flood.
pub open spec fn black_key() -> Seq<char> {
    "0/0/0/1.000000"@
}

pub open spec fn black_rgb() -> Seq<char> {
    "0.000000 0.000000 0.000000"@
}

pub open spec fn black_opacity() -> Seq<char> {
    "1.000000"@
}

/// The key of the alpha channel of `source` as a black shape.
pub open spec fn source_alpha_key(source: Seq<char>) -> Seq<char> {
    "filter/source-alpha/"@ + source
}

/// The alpha of `source` as a black shape over the page is interned as `name`:
/// first the black page flood, then the soft-mask state, then the form.
#[verifier::opaque]
pub open spec fn source_alpha_made(
    old: ResourcesView,
    new: ResourcesView,
    name: Seq<char>,
    source: Seq<char>,
    page: FilterRect,
) -> bool {
    match lookup(old.forms, source_alpha_key(source)) {
        Some(e) => new == old && name == e.name@,
        None => exists|m1: ResourcesView, black: Seq<char>, m2: ResourcesView, gs: Seq<char>|
            #[trigger] flood_made(old, m1, black, black_key(), black_rgb(), black_opacity(), false, page)
                && #[trigger] soft_mask_made(m1, m2, gs, source, "Alpha"@, None) && form_made(
                m2,
                new,
                name,
                source_alpha_key(source),
                page.bbox@,
                "q /"@ + gs + " gs /"@ + black + " Do Q"@,
            ),
    }
}

/// The key of the luminance of `input` turned into alpha within `rect`.
pub open spec fn luminance_key(input: Seq<char>, rect: FilterRect) -> Seq<char> {
    "filter/color-matrix/luminance-to-alpha/"@ + input + "/"@ + rect.key@
}

/// The luminance of `input` as alpha is interned as `name`: first the
/// luminosity soft-mask state, then the black flood of `rect`, then the form.
#[verifier::opaque]
pub open spec fn luminance_made(
    old: ResourcesView,
    new: ResourcesView,
    name: Seq<char>,
    rect: FilterRect,
    input: Seq<char>,
) -> bool {
    match lookup(old.forms, luminance_key(input, rect)) {
        Some(e) => new == old && name == e.name@,
        None => exists|m1: ResourcesView, gs: Seq<char>, m2: ResourcesView, black: Seq<char>|
            #[trigger] soft_mask_made(old, m1, gs, input, "Luminosity"@, None)
                && #[trigger] flood_made(m1, m2, black, black_key(), black_rgb(), black_opacity(), false, rect)
                && form_made(m2, new, name, luminance_key(input, rect), rect.bbox@, gs_stream(rect, gs, black)),
    }
}

/// The key of the graphics state that applies the transfer functions `t`.
pub open spec fn transfer_gstate_key(t: TransferFunctions) -> Seq<char> {
    "filter/component-transfer-gstate/"@ + t.r_key@ + "/"@ + t.g_key@ + "/"@ + t.b_key@
}

/// The graphics state that applies `t` to the red, green and blue channels.
pub open spec fn transfer_gstate_dict(t: TransferFunctions) -> Seq<char> {
    "<</Type/ExtGState /TR2 ["@ + t.r_dict@ + " "@ + t.g_dict@ + " "@ + t.b_dict@ + "]>>"@
}

/// The transfer graphics state is interned as `gs`.
pub open spec fn transfer_gstate_made(old: ResourcesView, new: ResourcesView, gs: Seq<char>, t: TransferFunctions) -> bool {
    interns(
        old,
        new,
        ResourceKind::ExtGState,
        gs,
        transfer_gstate_key(t),
        transfer_gstate_dict(t),
        transfer_gstate_dict(t),
        Seq::empty(),
    )
}

/// The key of `input` with the transfer functions `t` applied within `rect`.
pub open spec fn transfer_form_key(input: Seq<char>, t: TransferFunctions, rect: FilterRect) -> Seq<char> {
    "filter/component-transfer/"@ + input + "/"@ + t.r_key@ + "/"@ + t.g_key@ + "/"@ + t.b_key@ + "/"@
        + rect.key@
}

/// `input` with `t` applied is interned as `name`, after its graphics state.
#[verifier::opaque]
pub open spec fn transfer_form_made(
    old: ResourcesView,
    new: ResourcesView,
    name: Seq<char>,
    rect: FilterRect,
    input: Seq<char>,
    t: TransferFunctions,
) -> bool {
    match lookup(old.forms, transfer_form_key(input, t, rect)) {
        Some(e) => new == old && name == e.name@,
        None => exists|mid: ResourcesView, gs: Seq<char>|
            #[trigger] transfer_gstate_made(old, mid, gs, t) && form_made(
                mid,
                new,
                name,
                transfer_form_key(input, t, rect),
                rect.bbox@,
                gs_stream(rect, gs, input),
            ),
    }
}


impl PdfConverter {
    /// A flood of `rect` with `paint`; a translucent paint goes through a
    /// fill-opacity graphics state.
    pub fn ensure_flood_form(&mut self, rect: &FilterRect, paint: &FloodPaint) -> (name: String)
        requires
            room(old(self).resources@, 2),
        ensures
            flood_made(
                old(self).resources@,
                final(self).resources@,
                name@,
                paint.key@,
                paint.rgb@,
                paint.opacity@,
                paint.translucent,
                *rect,
            ),
            final(self).resources@.wf(),
            final(self).resources@.next_id <= old(self).resources@.next_id + if paint.translucent {
                2int
            } else {
                1int
            },
            same_but_resources(final(self), old(self)),
    {
        proof {
            reveal(flood_made);
        }
        let mut key = String::new();
        key.append("filter/flood/");
        key.append(paint.key.as_str());
        key.append("/");
        key.append(rect.key.as_str());
        proof {
            assert(key@ =~= flood_key(paint.key@, *rect));
        }
        match self.form_name(&key) {
            Some(n) => {
                return n;
            },
            None => {},
        }
        let ghost r0 = self.resources@;
        let ghost mut gs_opt: Option<Seq<char>> = None;
        let mut s = String::new();
        s.append("q ");
        if paint.translucent {
            let mut entry = String::new();
            entry.append("/ca ");
            entry.append(paint.opacity.as_str());
            let mut entries: Vec<String> = Vec::new();
            entries.push(entry);
            proof {
                assert(views(entries@) =~= seq!["/ca "@ + paint.opacity@]);
            }
            let gs = self.ensure_ext_gstate(entries.as_slice());
            match gs {
                Some(g) => {
                    s.append("/");
                    s.append(g.as_str());
                    s.append(" gs ");
                    proof {
                        gs_opt = Some(g@);
                        assert(entry_gstate_made(r0, self.resources@, g@, "/ca "@ + paint.opacity@));
                    }
                },
                None => {},
            }
        }
        s.append(paint.rgb.as_str());
        s.append(" rg ");
        s.append(rect.xywh.as_str());
        s.append(" re f Q");
        proof {
            assert(s@ =~= flood_stream(paint.rgb@, *rect, gs_opt));
        }
        let ghost r1 = self.resources@;
        let stream = stream_bytes(&s);
        let name = self.ensure_transparency_form(key, rect.bbox.as_str(), stream);
        proof {
            if paint.translucent {
                assert(entry_gstate_made(r0, r1, gs_opt->0, "/ca "@ + paint.opacity@));
            }
        }
        name
    }

    /// `source_form` blended over `backdrop_form` with `blend_mode` within `rect`.
    pub fn ensure_blend_form(&mut self, rect: &FilterRect, backdrop_form: &str, source_form: &str, blend_mode: BlendMode) -> (name: String)
        requires
            room(old(self).resources@, 2),
        ensures
            blend_made(old(self).resources@, final(self).resources@, name@, *rect, backdrop_form@, source_form@, blend_mode),
            final(self).resources@.wf(),
            final(self).resources@.next_id <= old(self).resources@.next_id + 2,
            same_but_resources(final(self), old(self)),
    {
        proof {
            reveal(blend_made);
        }
        let mode = blend_mode_name(blend_mode);
        let mut key = String::new();
        key.append("filter/blend/");
        key.append(backdrop_form);
        key.append("/");
        key.append(source_form);
        key.append("/");
        key.append(mode);
        key.append("/");
        key.append(rect.key.as_str());
        proof {
            assert(key@ =~= blend_key(backdrop_form@, source_form@, blend_mode, *rect));
        }
        match self.form_name(&key) {
            Some(n) => {
                return n;
            },
            None => {},
        }
        let ghost r0 = self.resources@;
        let mut entry = String::new();
        entry.append("/BM/");
        entry.append(mode);
        let mut entries: Vec<String> = Vec::new();
        entries.push(entry);
        proof {
            assert(views(entries@) =~= seq!["/BM/"@ + blend_mode_label(blend_mode)]);
        }
        let gs = match self.ensure_ext_gstate(entries.as_slice()) {
            Some(g) => g,
            None => String::new(),
        };
        let ghost r1 = self.resources@;
        proof {
            assert(entry_gstate_made(r0, r1, gs@, "/BM/"@ + blend_mode_label(blend_mode)));
        }
        let mut s = String::new();
        s.append("q ");
        s.append(rect.xywh.as_str());
        s.append(" re W n");
        s.append(" /");
        s.append(backdrop_form);
        s.append(" Do /");
        s.append(gs.as_str());
        s.append(" gs /");
        s.append(source_form);
        s.append(" Do Q");
        proof {
            assert(s@ =~= blend_stream(*rect, backdrop_form@, gs@, source_form@));
        }
        let stream = stream_bytes(&s);
        self.ensure_transparency_form(key, rect.bbox.as_str(), stream)
    }

    /// `input_form` masked by the alpha of `mask_form` (inverted when
    /// `invert`) within `rect`.
    pub fn ensure_masked_form(&mut self, rect: &FilterRect, input_form: &str, mask_form: &str, invert: bool) -> (name: String)
        requires
            room(old(self).resources@, 3),
        ensures
            masked_made(old(self).resources@, final(self).resources@, name@, *rect, input_form@, mask_form@, invert),
            final(self).resources@.wf(),
            final(self).resources@.next_id <= old(self).resources@.next_id + 3,
            same_but_resources(final(self), old(self)),
    {
        proof {
            reveal(masked_made);
        }
        let mut key = String::new();
        key.append("filter/masked/");
        key.append(input_form);
        key.append("/");
        key.append(mask_form);
        key.append("/");
        if invert {
            key.append("true");
        } else {
            key.append("false");
        }
        key.append("/");
        key.append(rect.key.as_str());
        proof {
            assert(key@ =~= masked_key(input_form@, mask_form@, invert, *rect));
        }
        match self.form_name(&key) {
            Some(n) => {
                return n;
            },
            None => {},
        }
        let ghost r0 = self.resources@;
        let transfer: Option<String> = if invert {
            Some(self.ensure_invert_transfer_function())
        } else {
            None
        };
        let ghost r1 = self.resources@;
        let gs = match &transfer {
            Some(t) => self.ensure_soft_mask_ext_gstate_with_transfer(mask_form, "Alpha", Some(t.as_str())),
            None => self.ensure_soft_mask_ext_gstate_with_transfer(mask_form, "Alpha", None),
        };
        let ghost r2 = self.resources@;
        let mut s = String::new();
        s.append("q ");
        s.append(rect.xywh.as_str());
        s.append(" re W n");
        s.append(" /");
        s.append(gs.as_str());
        s.append(" gs /");
        s.append(input_form);
        s.append(" Do Q");
        proof {
            assert(s@ =~= gs_stream(*rect, gs@, input_form@));
        }
        let stream = stream_bytes(&s);
        let name = self.ensure_transparency_form(key, rect.bbox.as_str(), stream);
        proof {
            match transfer {
                Some(t) => {
                    assert(interns(r0, r1, ResourceKind::Function, t@, invert_key(), invert_dict(), invert_dict(), Seq::empty()));
                    assert(soft_mask_made(r1, r2, gs@, mask_form@, "Alpha"@, Some(t@)));
                },
                None => {
                    assert(soft_mask_made(r0, r2, gs@, mask_form@, "Alpha"@, None));
                },
            }
        }
        name
    }
}


/// The paint of a black, opaque flood.
fn black_paint() -> (p: FloodPaint)
    ensures
        p.key@ == black_key(),
        p.rgb@ == black_rgb(),
        p.opacity@ == black_opacity(),
        !p.translucent,
{
    FloodPaint {
        key: "0/0/0/1.000000".to_owned(),
        rgb: "0.000000 0.000000 0.000000".to_owned(),
        opacity: "1.000000".to_owned(),
        translucent: false,
    }
}

impl PdfConverter {
    /// The alpha channel of `alpha_source_form` as a black shape over the
    /// page region `page`.
    pub fn ensure_source_alpha_form(&mut self, alpha_source_form: &str, page: &FilterRect) -> (name: String)
        requires
            room(old(self).resources@, 3),
        ensures
            source_alpha_made(old(self).resources@, final(self).resources@, name@, alpha_source_form@, *page),
            final(self).resources@.wf(),
            final(self).resources@.next_id <= old(self).resources@.next_id + 3,
            same_but_resources(final(self), old(self)),
    {
        proof {
            reveal(source_alpha_made);
        }
        let mut key = String::new();
        key.append("filter/source-alpha/");
        key.append(alpha_source_form);
        proof {
            assert(key@ =~= source_alpha_key(alpha_source_form@));
        }
        match self.form_name(&key) {
            Some(n) => {
                return n;
            },
            None => {},
        }
        let ghost r0 = self.resources@;
        let paint = black_paint();
        let black = self.ensure_flood_form(page, &paint);
        let ghost r1 = self.resources@;
        let gs = self.ensure_soft_mask_ext_gstate(alpha_source_form, "Alpha");
        let ghost r2 = self.resources@;
        let mut s = String::new();
        s.append("q /");
        s.append(gs.as_str());
        s.append(" gs /");
        s.append(black.as_str());
        s.append(" Do Q");
        let stream = stream_bytes(&s);
        let name = self.ensure_transparency_form(key, page.bbox.as_str(), stream);
        proof {
            assert(s@ =~= "q /"@ + gs@ + " gs /"@ + black@ + " Do Q"@);
            assert(flood_made(r0, r1, black@, black_key(), black_rgb(), black_opacity(), false, *page));
            assert(soft_mask_made(r1, r2, gs@, alpha_source_form@, "Alpha"@, None));
        }
        name
    }

    /// The luminance of `input_form` turned into alpha within `rect`.
    pub fn ensure_luminance_to_alpha_form(&mut self, rect: &FilterRect, input_form: &str) -> (name: String)
        requires
            room(old(self).resources@, 3),
        ensures
            luminance_made(old(self).resources@, final(self).resources@, name@, *rect, input_form@),
            final(self).resources@.wf(),
            final(self).resources@.next_id <= old(self).resources@.next_id + 3,
            same_but_resources(final(self), old(self)),
    {
        proof {
            reveal(luminance_made);
        }
        let mut key = String::new();
        key.append("filter/color-matrix/luminance-to-alpha/");
        key.append(input_form);
        key.append("/");
        key.append(rect.key.as_str());
        proof {
            assert(key@ =~= luminance_key(input_form@, *rect));
        }
        match self.form_name(&key) {
            Some(n) => {
                return n;
            },
            None => {},
        }
        let ghost r0 = self.resources@;
        let gs = self.ensure_soft_mask_ext_gstate(input_form, "Luminosity");
        let ghost r1 = self.resources@;
        let paint = black_paint();
        let black = self.ensure_flood_form(rect, &paint);
        let ghost r2 = self.resources@;
        let mut s = String::new();
        s.append("q ");
        s.append(rect.xywh.as_str());
        s.append(" re W n");
        s.append(" /");
        s.append(gs.as_str());
        s.append(" gs /");
        s.append(black.as_str());
        s.append(" Do Q");
        let stream = stream_bytes(&s);
        let name = self.ensure_transparency_form(key, rect.bbox.as_str(), stream);
        proof {
            assert(s@ =~= gs_stream(*rect, gs@, black@));
            assert(soft_mask_made(r0, r1, gs@, input_form@, "Luminosity"@, None));
            assert(flood_made(r1, r2, black@, black_key(), black_rgb(), black_opacity(), false, *rect));
        }
        name
    }

    /// The graphics state that applies the transfer functions `t`.
    pub fn ensure_component_transfer_ext_gstate(&mut self, t: &TransferFunctions) -> (gs: String)
        requires
            room(old(self).resources@, 1),
        ensures
            transfer_gstate_made(old(self).resources@, final(self).resources@, gs@, *t),
            final(self).resources@.wf(),
            final(self).resources@.next_id <= old(self).resources@.next_id + 1,
            same_but_resources(final(self), old(self)),
    {
        let mut key = String::new();
        key.append("filter/component-transfer-gstate/");
        key.append(t.r_key.as_str());
        key.append("/");
        key.append(t.g_key.as_str());
        key.append("/");
        key.append(t.b_key.as_str());
        let mut dict = String::new();
        dict.append("<</Type/ExtGState /TR2 [");
        dict.append(t.r_dict.as_str());
        dict.append(" ");
        dict.append(t.g_dict.as_str());
        dict.append(" ");
        dict.append(t.b_dict.as_str());
        dict.append("]>>");
        proof {
            assert(key@ =~= transfer_gstate_key(*t));
            assert(dict@ =~= transfer_gstate_dict(*t));
        }
        let dvi_dict = dict.clone();
        self.ensure_ext_gstate_with_dicts(key, dict, dvi_dict)
    }

    /// `input_form` with the transfer functions `t` applied, within `rect`.
    pub fn ensure_component_transfer_rgb_form(&mut self, rect: &FilterRect, input_form: &str, t: &TransferFunctions) -> (name: String)
        requires
            room(old(self).resources@, 2),
        ensures
            transfer_form_made(old(self).resources@, final(self).resources@, name@, *rect, input_form@, *t),
            final(self).resources@.wf(),
            final(self).resources@.next_id <= old(self).resources@.next_id + 2,
            same_but_resources(final(self), old(self)),
    {
        proof {
            reveal(transfer_form_made);
        }
        let mut key = String::new();
        key.append("filter/component-transfer/");
        key.append(input_form);
        key.append("/");
        key.append(t.r_key.as_str());
        key.append("/");
        key.append(t.g_key.as_str());
        key.append("/");
        key.append(t.b_key.as_str());
        key.append("/");
        key.append(rect.key.as_str());
        proof {
            assert(key@ =~= transfer_form_key(input_form@, *t, *rect));
        }
        match self.form_name(&key) {
            Some(n) => {
                return n;
            },
            None => {},
        }
        let ghost r0 = self.resources@;
        let gs = self.ensure_component_transfer_ext_gstate(t);
        let ghost r1 = self.resources@;
        let mut s = String::new();
        s.append("q ");
        s.append(rect.xywh.as_str());
        s.append(" re W n");
        s.append(" /");
        s.append(gs.as_str());
        s.append(" gs /");
        s.append(input_form);
        s.append(" Do Q");
        let stream = stream_bytes(&s);
        let name = self.ensure_transparency_form(key, rect.bbox.as_str(), stream);
        proof {
            assert(s@ =~= gs_stream(*rect, gs@, input_form@));
            assert(transfer_gstate_made(r0, r1, gs@, *t));
        }
        name
    }
}


// ---------------------------------------------------------------------------
// Filter results
// ---------------------------------------------------------------------------

/// A filter result as values: its colour form and its alpha form.
pub open spec fn forms_of(v: FilterForms) -> (Seq<char>, Seq<char>) {
    (v.form_name@, v.alpha_form_name@)
}

/// `value` clipped to `rect` gives `out`: the colour form is clipped, and the
/// alpha form too unless it is the colour form itself.
#[verifier::opaque]
pub open spec fn clipped_value_made(
    old: ResourcesView,
    new: ResourcesView,
    out: (Seq<char>, Seq<char>),
    value: (Seq<char>, Seq<char>),
    rect: FilterRect,
) -> bool {
    exists|mid: ResourcesView|
        #[trigger] clipped_made(old, mid, out.0, value.0, rect) && if value.1 == value.0 {
            new == mid && out.1 == out.0
        } else {
            clipped_made(mid, new, out.1, value.1, rect)
        }
}

/// Why `feComponentTransfer` on the alpha channel is not drawn natively.
pub open spec fn alpha_transfer_error() -> Seq<char> {
    "feComponentTransfer with alpha transfer still requires raster fallback"@
}

/// `feComponentTransfer` of `input` gives `out`: the colour form with the
/// transfer functions applied (only clipped when they are all identities),
/// and the clipped alpha form.
#[verifier::opaque]
pub open spec fn transfer_value_made(
    old: ResourcesView,
    new: ResourcesView,
    out: (Seq<char>, Seq<char>),
    rect: FilterRect,
    input: (Seq<char>, Seq<char>),
    t: TransferFunctions,
    rgb_identity: bool,
) -> bool {
    exists|mid: ResourcesView|
        (if rgb_identity {
            clipped_made(old, mid, out.0, input.0, rect)
        } else {
            transfer_form_made(old, mid, out.0, rect, input.0, t)
        }) && #[trigger] clipped_made(mid, new, out.1, input.1, rect)
}

/// Why an arithmetic `feComposite` is not drawn natively.
pub open spec fn arithmetic_error() -> Seq<char> {
    "feComposite operator=\"arithmetic\" is not supported natively"@
}

/// `feComposite` of `source` over `backdrop` gives `out` (whose alpha form is
/// its colour form): `over` merges the two, `in` and `out` mask the source by
/// the backdrop's alpha (inverted for `out`), `atop` and `xor` merge the
/// backdrop masked by the source's inverted alpha with the source masked by
/// the backdrop's alpha (inverted for `xor`).
#[verifier::opaque]
pub open spec fn composite_made(
    old: ResourcesView,
    new: ResourcesView,
    out: (Seq<char>, Seq<char>),
    rect: FilterRect,
    source: (Seq<char>, Seq<char>),
    backdrop: (Seq<char>, Seq<char>),
    op: CompositeOperator,
) -> bool {
    &&& out.1 == out.0
    &&& match op {
        CompositeOperator::Over => merge_made(old, new, out.0, seq![backdrop.0, source.0], rect),
        CompositeOperator::In => masked_made(old, new, out.0, rect, source.0, backdrop.1, false),
        CompositeOperator::Out => masked_made(old, new, out.0, rect, source.0, backdrop.1, true),
        CompositeOperator::Atop => exists|m1: ResourcesView, a: Seq<char>, m2: ResourcesView, b: Seq<char>|
            #[trigger] masked_made(old, m1, a, rect, source.0, backdrop.1, false)
                && #[trigger] masked_made(m1, m2, b, rect, backdrop.0, source.1, true)
                && merge_made(m2, new, out.0, seq![b, a], rect),
        CompositeOperator::Xor => exists|m1: ResourcesView, a: Seq<char>, m2: ResourcesView, b: Seq<char>|
            #[trigger] masked_made(old, m1, a, rect, source.0, backdrop.1, true)
                && #[trigger] masked_made(m1, m2, b, rect, backdrop.0, source.1, true)
                && merge_made(m2, new, out.0, seq![b, a], rect),
        CompositeOperator::Arithmetic => false,
    }
}

/// Two names in a vector.
fn pair(first: &String, second: &String) -> (r: Vec<String>)
    ensures
        views(r@) == seq![first@, second@],
{
    let mut r: Vec<String> = Vec::new();
    r.push(first.clone());
    r.push(second.clone());
    proof {
        assert(views(r@) =~= seq![first@, second@]);
    }
    r
}

impl PdfConverter {
    /// A filter result clipped to the filter region `rect`.
    pub fn ensure_clipped_filter_value(&mut self, value: &FilterForms, rect: &FilterRect) -> (r: FilterForms)
        requires
            room(old(self).resources@, 2),
        ensures
            clipped_value_made(old(self).resources@, final(self).resources@, forms_of(r), forms_of(*value), *rect),
            final(self).resources@.wf(),
            final(self).resources@.next_id <= old(self).resources@.next_id + 2,
            same_but_resources(final(self), old(self)),
    {
        proof {
            reveal(clipped_value_made);
        }
        let ghost r0 = self.resources@;
        let form_name = self.ensure_clipped_form(value.form_name.as_str(), rect);
        let ghost r1 = self.resources@;
        let same = is_same(&value.alpha_form_name, &value.form_name);
        let alpha_form_name = if same {
            form_name.clone()
        } else {
            self.ensure_clipped_form(value.alpha_form_name.as_str(), rect)
        };
        proof {
            assert(clipped_made(r0, r1, form_name@, value.form_name@, *rect));
            if !same {
                assert(clipped_made(r1, self.resources@, alpha_form_name@, value.alpha_form_name@, *rect));
            }
            let out = (form_name@, alpha_form_name@);
            let v = (value.form_name@, value.alpha_form_name@);
            assert(clipped_made(r0, r1, out.0, v.0, *rect));
            assert(if v.1 == v.0 {
                self.resources@ == r1 && out.1 == out.0
            } else {
                clipped_made(r1, self.resources@, out.1, v.1, *rect)
            });
            assert(clipped_value_made(r0, self.resources@, out, v, *rect));
        }
        FilterForms { form_name, alpha_form_name }
    }

    /// `feComponentTransfer` of `input` within `rect`: refused when the alpha
    /// transfer is not the identity (`alpha_identity`); the colour form is
    /// only clipped when the red, green and blue transfers are identities
    /// (`rgb_identity`).
    pub fn ensure_component_transfer_filter_value(
        &mut self,
        rect: &FilterRect,
        input: &FilterForms,
        t: &TransferFunctions,
        alpha_identity: bool,
        rgb_identity: bool,
    ) -> (r: Result<FilterForms, String>)
        requires
            room(old(self).resources@, 3),
        ensures
            !alpha_identity ==> (r matches Err(e) && e@ == alpha_transfer_error() && *final(self) == *old(self)),
            alpha_identity ==> (r matches Ok(v) && transfer_value_made(
                old(self).resources@,
                final(self).resources@,
                forms_of(v),
                *rect,
                forms_of(*input),
                *t,
                rgb_identity,
            )),
            final(self).resources@.wf(),
            final(self).resources@.next_id <= old(self).resources@.next_id + 3,
            same_but_resources(final(self), old(self)),
    {
        proof {
            reveal(transfer_value_made);
        }
        if !alpha_identity {
            return Err("feComponentTransfer with alpha transfer still requires raster fallback".to_owned());
        }
        let ghost r0 = self.resources@;
        let form_name = if rgb_identity {
            self.ensure_clipped_form(input.form_name.as_str(), rect)
        } else {
            self.ensure_component_transfer_rgb_form(rect, input.form_name.as_str(), t)
        };
        let ghost r1 = self.resources@;
        proof {
            if rgb_identity {
                assert(clipped_made(r0, r1, form_name@, input.form_name@, *rect));
            } else {
                assert(transfer_form_made(r0, r1, form_name@, *rect, input.form_name@, *t));
            }
        }
        let alpha_form_name = self.ensure_clipped_form(input.alpha_form_name.as_str(), rect);
        proof {
            let out = (form_name@, alpha_form_name@);
            let i = (input.form_name@, input.alpha_form_name@);
            if rgb_identity {
                assert(clipped_made(r0, r1, out.0, i.0, *rect));
            } else {
                assert(transfer_form_made(r0, r1, out.0, *rect, i.0, *t));
            }
            assert(clipped_made(r1, self.resources@, out.1, i.1, *rect));
            assert(transfer_value_made(r0, self.resources@, out, *rect, i, *t, rgb_identity));
        }
        Ok(FilterForms { form_name, alpha_form_name })
    }

    /// `feComposite` of `source` with `backdrop` under `operator` within
    /// `rect`; the arithmetic operator is refused.
    pub fn ensure_composite_filter_value(
        &mut self,
        rect: &FilterRect,
        source: &FilterForms,
        backdrop: &FilterForms,
        operator: CompositeOperator,
    ) -> (r: Result<FilterForms, String>)
        requires
            room(old(self).resources@, 7),
        ensures
            operator == CompositeOperator::Arithmetic ==> (r matches Err(e) && e@ == arithmetic_error()
                && *final(self) == *old(self)),
            operator != CompositeOperator::Arithmetic ==> (r matches Ok(v) && composite_made(
                old(self).resources@,
                final(self).resources@,
                forms_of(v),
                *rect,
                forms_of(*source),
                forms_of(*backdrop),
                operator,
            )),
            final(self).resources@.wf(),
            final(self).resources@.next_id <= old(self).resources@.next_id + 7,
            same_but_resources(final(self), old(self)),
    {
        proof {
            reveal(composite_made);
        }
        let ghost r0 = self.resources@;
        let ghost src = (source.form_name@, source.alpha_form_name@);
        let ghost bd = (backdrop.form_name@, backdrop.alpha_form_name@);
        match operator {
            CompositeOperator::Over => {
                let inputs = pair(&backdrop.form_name, &source.form_name);
                let form_name = self.ensure_merge_form(rect, &inputs);
                let alpha_form_name = form_name.clone();
                proof {
                    let out = (form_name@, alpha_form_name@);
                    assert(merge_made(r0, self.resources@, out.0, seq![bd.0, src.0], *rect));
                    assert(composite_made(r0, self.resources@, out, *rect, src, bd, operator));
                }
                Ok(FilterForms { form_name, alpha_form_name })
            },
            CompositeOperator::In => {
                let form_name = self.ensure_masked_form(
                    rect,
                    source.form_name.as_str(),
                    backdrop.alpha_form_name.as_str(),
                    false,
                );
                let alpha_form_name = form_name.clone();
                proof {
                    let out = (form_name@, alpha_form_name@);
                    assert(masked_made(r0, self.resources@, out.0, *rect, src.0, bd.1, false));
                    assert(composite_made(r0, self.resources@, out, *rect, src, bd, operator));
                }
                Ok(FilterForms { form_name, alpha_form_name })
            },
            CompositeOperator::Out => {
                let form_name = self.ensure_masked_form(
                    rect,
                    source.form_name.as_str(),
                    backdrop.alpha_form_name.as_str(),
                    true,
                );
                let alpha_form_name = form_name.clone();
                proof {
                    let out = (form_name@, alpha_form_name@);
                    assert(masked_made(r0, self.resources@, out.0, *rect, src.0, bd.1, true));
                    assert(composite_made(r0, self.resources@, out, *rect, src, bd, operator));
                }
                Ok(FilterForms { form_name, alpha_form_name })
            },
            CompositeOperator::Atop => {
                let source_in = self.ensure_masked_form(
                    rect,
                    source.form_name.as_str(),
                    backdrop.alpha_form_name.as_str(),
                    false,
                );
                let ghost r1 = self.resources@;
                let backdrop_out = self.ensure_masked_form(
                    rect,
                    backdrop.form_name.as_str(),
                    source.alpha_form_name.as_str(),
                    true,
                );
                let ghost r2 = self.resources@;
                let inputs = pair(&backdrop_out, &source_in);
                let form_name = self.ensure_merge_form(rect, &inputs);
                let alpha_form_name = form_name.clone();
                proof {
                    let out = (form_name@, alpha_form_name@);
                    assert(masked_made(r0, r1, source_in@, *rect, src.0, bd.1, false));
                    assert(masked_made(r1, r2, backdrop_out@, *rect, bd.0, src.1, true));
                    assert(merge_made(r2, self.resources@, out.0, seq![backdrop_out@, source_in@], *rect));
                    assert(composite_made(r0, self.resources@, out, *rect, src, bd, operator));
                }
                Ok(FilterForms { form_name, alpha_form_name })
            },
            CompositeOperator::Xor => {
                let source_out = self.ensure_masked_form(
                    rect,
                    source.form_name.as_str(),
                    backdrop.alpha_form_name.as_str(),
                    true,
                );
                let ghost r1 = self.resources@;
                let backdrop_out = self.ensure_masked_form(
                    rect,
                    backdrop.form_name.as_str(),
                    source.alpha_form_name.as_str(),
                    true,
                );
                let ghost r2 = self.resources@;
                let inputs = pair(&backdrop_out, &source_out);
                let form_name = self.ensure_merge_form(rect, &inputs);
                let alpha_form_name = form_name.clone();
                proof {
                    let out = (form_name@, alpha_form_name@);
                    assert(masked_made(r0, r1, source_out@, *rect, src.0, bd.1, true));
                    assert(masked_made(r1, r2, backdrop_out@, *rect, bd.0, src.1, true));
                    assert(merge_made(r2, self.resources@, out.0, seq![backdrop_out@, source_out@], *rect));
                    assert(composite_made(r0, self.resources@, out, *rect, src, bd, operator));
                }
                Ok(FilterForms { form_name, alpha_form_name })
            },
            CompositeOperator::Arithmetic => {
                Err("feComposite operator=\"arithmetic\" is not supported natively".to_owned())
            },
        }
    }
}

/// The two strings are equal.
fn is_same(a: &String, b: &String) -> (r: bool)
    ensures
        r == (a@ == b@),
{
    crate::tex_engine::is_literal(a.as_str(), b.as_str())
}

// ---------------------------------------------------------------------------
// Equal sub-graphs are written once
// ---------------------------------------------------------------------------

proof fn lemma_form_present(old: ResourcesView, new: ResourcesView, name: Seq<char>, key: Seq<char>, bbox: Seq<char>, stream: Seq<char>)
    requires
        form_made(old, new, name, key, bbox, stream),
    ensures
        lookup(new.forms, key) matches Some(e) && e.name@ == name,
{
    lemma_interned_present(
        old,
        new,
        ResourceKind::Form,
        name,
        key,
        group_form_pdf_dict(bbox, "DeviceRGB"@, inline_resource_dict(old, true, false)),
        group_form_dvi_dict(bbox, "DeviceRGB"@, inline_resource_dict(old, true, true)),
        encode_utf8(stream),
    );
}

/// A form asked for again under the same key keeps its name, and the second
/// request changes nothing, whatever it would have drawn.
pub proof fn lemma_form_once(
    r0: ResourcesView,
    r1: ResourcesView,
    r2: ResourcesView,
    n1: Seq<char>,
    n2: Seq<char>,
    key: Seq<char>,
    bbox1: Seq<char>,
    stream1: Seq<char>,
    bbox2: Seq<char>,
    stream2: Seq<char>,
)
    requires
        form_made(r0, r1, n1, key, bbox1, stream1),
        form_made(r1, r2, n2, key, bbox2, stream2),
    ensures
        r2 == r1,
        n2 == n1,
{
    lemma_intern_idempotent(
        r0,
        r1,
        r2,
        ResourceKind::Form,
        key,
        n1,
        n2,
        group_form_pdf_dict(bbox1, "DeviceRGB"@, inline_resource_dict(r0, true, false)),
        group_form_dvi_dict(bbox1, "DeviceRGB"@, inline_resource_dict(r0, true, true)),
        encode_utf8(stream1),
        group_form_pdf_dict(bbox2, "DeviceRGB"@, inline_resource_dict(r1, true, false)),
        group_form_dvi_dict(bbox2, "DeviceRGB"@, inline_resource_dict(r1, true, true)),
        encode_utf8(stream2),
    );
}

/// Clipping the same input to the same region twice gives one form.
pub proof fn lemma_clipped_form_once(r0: ResourcesView, r1: ResourcesView, r2: ResourcesView, n1: Seq<char>, n2: Seq<char>, input: Seq<char>, rect: FilterRect)
    requires
        clipped_made(r0, r1, n1, input, rect),
        clipped_made(r1, r2, n2, input, rect),
    ensures
        r2 == r1,
        n2 == n1,
{
    reveal(clipped_made);
    let key = clipped_key(input, rect);
    lemma_form_once(r0, r1, r2, n1, n2, key, rect.bbox@, clipped_stream(input, rect), rect.bbox@, clipped_stream(input, rect));
}

/// Merging the same inputs in the same region twice gives one form.
pub proof fn lemma_merge_form_once(
    r0: ResourcesView,
    r1: ResourcesView,
    r2: ResourcesView,
    n1: Seq<char>,
    n2: Seq<char>,
    inputs: Seq<Seq<char>>,
    rect: FilterRect,
)
    requires
        merge_made(r0, r1, n1, inputs, rect),
        merge_made(r1, r2, n2, inputs, rect),
    ensures
        r2 == r1,
        n2 == n1,
{
    reveal(merge_made);
    let key = merge_key(inputs, rect);
    lemma_form_once(r0, r1, r2, n1, n2, key, rect.bbox@, merge_stream(inputs, rect), rect.bbox@, merge_stream(inputs, rect));
}

/// Shifting the same input by the same amount twice gives one form.
pub proof fn lemma_offset_form_once(
    r0: ResourcesView,
    r1: ResourcesView,
    r2: ResourcesView,
    n1: Seq<char>,
    n2: Seq<char>,
    input: Seq<char>,
    rect: FilterRect,
    dx: Seq<char>,
    dy: Seq<char>,
)
    requires
        offset_made(r0, r1, n1, input, rect, dx, dy),
        offset_made(r1, r2, n2, input, rect, dx, dy),
    ensures
        r2 == r1,
        n2 == n1,
{
    reveal(offset_made);
    let key = offset_key(input, rect, dx, dy);
    let st = offset_stream(input, rect, dx, dy);
    lemma_form_once(r0, r1, r2, n1, n2, key, rect.bbox@, st, rect.bbox@, st);
}

/// The same flood twice gives one form (and one opacity state).
pub proof fn lemma_flood_form_once(
    r0: ResourcesView,
    r1: ResourcesView,
    r2: ResourcesView,
    n1: Seq<char>,
    n2: Seq<char>,
    paint_key: Seq<char>,
    rgb: Seq<char>,
    opacity: Seq<char>,
    translucent: bool,
    rect: FilterRect,
)
    requires
        flood_made(r0, r1, n1, paint_key, rgb, opacity, translucent, rect),
        flood_made(r1, r2, n2, paint_key, rgb, opacity, translucent, rect),
    ensures
        r2 == r1,
        n2 == n1,
{
    reveal(flood_made);
    let key = flood_key(paint_key, rect);
    if lookup(r0.forms, key) is None {
        if translucent {
            let (mid, gs) = choose|mid: ResourcesView, gs: Seq<char>|
                #[trigger] entry_gstate_made(r0, mid, gs, "/ca "@ + opacity) && form_made(
                    mid,
                    r1,
                    n1,
                    key,
                    rect.bbox@,
                    flood_stream(rgb, rect, Some(gs)),
                );
            lemma_form_present(mid, r1, n1, key, rect.bbox@, flood_stream(rgb, rect, Some(gs)));
        } else {
            lemma_form_present(r0, r1, n1, key, rect.bbox@, flood_stream(rgb, rect, None));
        }
    }
}

/// The same blend twice gives one form (and one blend state).
pub proof fn lemma_blend_form_once(
    r0: ResourcesView,
    r1: ResourcesView,
    r2: ResourcesView,
    n1: Seq<char>,
    n2: Seq<char>,
    rect: FilterRect,
    backdrop: Seq<char>,
    source: Seq<char>,
    mode: BlendMode,
)
    requires
        blend_made(r0, r1, n1, rect, backdrop, source, mode),
        blend_made(r1, r2, n2, rect, backdrop, source, mode),
    ensures
        r2 == r1,
        n2 == n1,
{
    reveal(blend_made);
    let key = blend_key(backdrop, source, mode, rect);
    if lookup(r0.forms, key) is None {
        let (mid, gs) = choose|mid: ResourcesView, gs: Seq<char>|
            #[trigger] entry_gstate_made(r0, mid, gs, "/BM/"@ + blend_mode_label(mode)) && form_made(
                mid,
                r1,
                n1,
                key,
                rect.bbox@,
                blend_stream(rect, backdrop, gs, source),
            );
        lemma_form_present(mid, r1, n1, key, rect.bbox@, blend_stream(rect, backdrop, gs, source));
    }
}

/// `feComposite` with `in` draws the source's colour masked by the
/// backdrop's alpha, not inverted: its result is the form registered under
/// the masked key of the source's colour form and the backdrop's alpha form;
/// when that form is new, it draws the source's colour form through the
/// soft-mask state made from the backdrop's alpha form.
pub proof fn lemma_composite_in_masks_source_by_backdrop_alpha(
    old: ResourcesView,
    new: ResourcesView,
    out: (Seq<char>, Seq<char>),
    rect: FilterRect,
    source: (Seq<char>, Seq<char>),
    backdrop: (Seq<char>, Seq<char>),
)
    requires
        composite_made(old, new, out, rect, source, backdrop, CompositeOperator::In),
    ensures
        out.1 == out.0,
        lookup(new.forms, "filter/masked/"@ + source.0 + "/"@ + backdrop.1 + "/"@ + "false"@ + "/"@ + rect.key@) matches Some(e)
            && e.name@ == out.0,
        lookup(old.forms, "filter/masked/"@ + source.0 + "/"@ + backdrop.1 + "/"@ + "false"@ + "/"@ + rect.key@) is None
            ==> exists|gs: Seq<char>|
            lookup(new.ext_gstates, soft_mask_key(backdrop.1, "Alpha"@, None)) matches Some(g) && g.name@ == gs
                && new.forms.last().stream@ == encode_utf8(
                "q "@ + rect.xywh@ + " re W n"@ + " /"@ + #[trigger] (gs + " gs /"@) + source.0 + " Do Q"@,
            ),
{
    reveal(masked_made);
    reveal(composite_made);
    let key = "filter/masked/"@ + source.0 + "/"@ + backdrop.1 + "/"@ + "false"@ + "/"@ + rect.key@;
    assert(masked_key(source.0, backdrop.1, false, rect) == key);
    assert(masked_made(old, new, out.0, rect, source.0, backdrop.1, false));
    if lookup(old.forms, key) is None {
        let (m2, gs) = choose|m2: ResourcesView, gs: Seq<char>|
            #[trigger] soft_mask_made(old, m2, gs, backdrop.1, "Alpha"@, None)
                && form_made(m2, new, out.0, key, rect.bbox@, gs_stream(rect, gs, source.0));
        let sm = soft_mask_key(backdrop.1, "Alpha"@, None);
        lemma_interned_present(
            old,
            m2,
            ResourceKind::ExtGState,
            gs,
            sm,
            soft_mask_pdf_dict(backdrop.1, "Alpha"@, None),
            soft_mask_dvi_dict(backdrop.1, "Alpha"@, None),
            Seq::empty(),
        );
        assert(kind_entries(m2, ResourceKind::Form) == kind_entries(old, ResourceKind::Form));
        assert(kind_entries(new, ResourceKind::ExtGState) == kind_entries(m2, ResourceKind::ExtGState));
        let stream = gs_stream(rect, gs, source.0);
        lemma_interned_present(
            m2,
            new,
            ResourceKind::Form,
            out.0,
            key,
            group_form_pdf_dict(rect.bbox@, "DeviceRGB"@, inline_resource_dict(m2, true, false)),
            group_form_dvi_dict(rect.bbox@, "DeviceRGB"@, inline_resource_dict(m2, true, true)),
            encode_utf8(stream),
        );
        assert(stream =~= "q "@ + rect.xywh@ + " re W n"@ + " /"@ + (gs + " gs /"@) + source.0 + " Do Q"@);
        assert(new.forms.last().stream@ == encode_utf8(stream));
    }
}

/// A masking registers its form under its masked key.
proof fn lemma_masked_present(
    old: ResourcesView,
    new: ResourcesView,
    name: Seq<char>,
    rect: FilterRect,
    input: Seq<char>,
    mask: Seq<char>,
    invert: bool,
)
    requires
        masked_made(old, new, name, rect, input, mask, invert),
    ensures
        lookup(new.forms, masked_key(input, mask, invert, rect)) matches Some(e) && e.name@ == name,
{
    reveal(masked_made);
    let key = masked_key(input, mask, invert, rect);
    if lookup(old.forms, key) is None {
        if invert {
            let (m1, t, m2, gs) = choose|m1: ResourcesView, t: Seq<char>, m2: ResourcesView, gs: Seq<char>|
                #[trigger] interns(old, m1, ResourceKind::Function, t, invert_key(), invert_dict(), invert_dict(), Seq::empty())
                    && #[trigger] soft_mask_made(m1, m2, gs, mask, "Alpha"@, Some(t))
                    && form_made(m2, new, name, key, rect.bbox@, gs_stream(rect, gs, input));
            lemma_interned_present(
                m2,
                new,
                ResourceKind::Form,
                name,
                key,
                group_form_pdf_dict(rect.bbox@, "DeviceRGB"@, inline_resource_dict(m2, true, false)),
                group_form_dvi_dict(rect.bbox@, "DeviceRGB"@, inline_resource_dict(m2, true, true)),
                encode_utf8(gs_stream(rect, gs, input)),
            );
        } else {
            let (m2, gs) = choose|m2: ResourcesView, gs: Seq<char>|
                #[trigger] soft_mask_made(old, m2, gs, mask, "Alpha"@, None)
                    && form_made(m2, new, name, key, rect.bbox@, gs_stream(rect, gs, input));
            lemma_interned_present(
                m2,
                new,
                ResourceKind::Form,
                name,
                key,
                group_form_pdf_dict(rect.bbox@, "DeviceRGB"@, inline_resource_dict(m2, true, false)),
                group_form_dvi_dict(rect.bbox@, "DeviceRGB"@, inline_resource_dict(m2, true, true)),
                encode_utf8(gs_stream(rect, gs, input)),
            );
        }
    }
}

/// `feComposite` with `out` draws the source's colour masked by the
/// backdrop's inverted alpha: its result is the form registered under the
/// inverted masked key of the source's colour form and the backdrop's alpha.
pub proof fn lemma_composite_out_masks_source_by_inverted_backdrop_alpha(
    old: ResourcesView,
    new: ResourcesView,
    out: (Seq<char>, Seq<char>),
    rect: FilterRect,
    source: (Seq<char>, Seq<char>),
    backdrop: (Seq<char>, Seq<char>),
)
    requires
        composite_made(old, new, out, rect, source, backdrop, CompositeOperator::Out),
    ensures
        out.1 == out.0,
        lookup(new.forms, "filter/masked/"@ + source.0 + "/"@ + backdrop.1 + "/"@ + "true"@ + "/"@ + rect.key@) matches Some(e)
            && e.name@ == out.0,
{
    reveal(composite_made);
    lemma_masked_present(old, new, out.0, rect, source.0, backdrop.1, true);
    assert(masked_key(source.0, backdrop.1, true, rect) == "filter/masked/"@ + source.0 + "/"@ + backdrop.1 + "/"@ + "true"@
        + "/"@ + rect.key@);
}

/// `feComposite` with `over` draws the backdrop first and the source over
/// it: its result is the merge form of the backdrop's colour form followed by
/// the source's, whose drawing, when it is new, shows the backdrop then the
/// source.
pub proof fn lemma_composite_over_draws_source_over_backdrop(
    old: ResourcesView,
    new: ResourcesView,
    out: (Seq<char>, Seq<char>),
    rect: FilterRect,
    source: (Seq<char>, Seq<char>),
    backdrop: (Seq<char>, Seq<char>),
)
    requires
        composite_made(old, new, out, rect, source, backdrop, CompositeOperator::Over),
    ensures
        out.1 == out.0,
        lookup(new.forms, "filter/merge/"@ + backdrop.0 + ","@ + source.0 + "/"@ + rect.key@) matches Some(e)
            && e.name@ == out.0,
        lookup(old.forms, "filter/merge/"@ + backdrop.0 + ","@ + source.0 + "/"@ + rect.key@) is None
            ==> new.forms.last().stream@ == encode_utf8(
            "q "@ + rect.xywh@ + " re W n"@ + " "@ + ("/"@ + backdrop.0 + " Do "@) + ("/"@ + source.0 + " Do "@) + "Q"@,
        ),
{
    reveal(composite_made);
    reveal(merge_made);
    let inputs = seq![backdrop.0, source.0];
    assert(inputs.drop_last() =~= seq![backdrop.0]);
    assert(join(inputs.drop_last(), ","@) == backdrop.0);
    assert(join(inputs, ","@) == backdrop.0 + ","@ + source.0);
    let key = merge_key(inputs, rect);
    assert(key =~= "filter/merge/"@ + backdrop.0 + ","@ + source.0 + "/"@ + rect.key@);
    let draws = inputs.map_values(|f: Seq<char>| "/"@ + f + " Do "@);
    assert(draws.drop_last() =~= seq!["/"@ + backdrop.0 + " Do "@]);
    assert(seq!["/"@ + backdrop.0 + " Do "@].drop_last() =~= Seq::<Seq<char>>::empty());
    assert(concat_all(draws.drop_last()) =~= "/"@ + backdrop.0 + " Do "@) by {
        assert(concat_all(Seq::<Seq<char>>::empty()) =~= Seq::<char>::empty());
    }
    assert(concat_all(draws) =~= ("/"@ + backdrop.0 + " Do "@) + ("/"@ + source.0 + " Do "@));
    let stream = merge_stream(inputs, rect);
    assert(stream =~= "q "@ + rect.xywh@ + " re W n"@ + " "@ + ("/"@ + backdrop.0 + " Do "@) + ("/"@ + source.0 + " Do "@)
        + "Q"@);
    lemma_interned_present(
        old,
        new,
        ResourceKind::Form,
        out.0,
        key,
        group_form_pdf_dict(rect.bbox@, "DeviceRGB"@, inline_resource_dict(old, true, false)),
        group_form_dvi_dict(rect.bbox@, "DeviceRGB"@, inline_resource_dict(old, true, true)),
        encode_utf8(stream),
    );
}

/// The same masking twice gives one form.
pub proof fn lemma_masked_form_once(
    r0: ResourcesView,
    r1: ResourcesView,
    r2: ResourcesView,
    n1: Seq<char>,
    n2: Seq<char>,
    rect: FilterRect,
    input: Seq<char>,
    mask: Seq<char>,
    invert: bool,
)
    requires
        masked_made(r0, r1, n1, rect, input, mask, invert),
        masked_made(r1, r2, n2, rect, input, mask, invert),
    ensures
        r2 == r1,
        n2 == n1,
{
    reveal(masked_made);
    let key = masked_key(input, mask, invert, rect);
    if lookup(r0.forms, key) is None {
        if invert {
            let (m1, t, m2, gs) = choose|m1: ResourcesView, t: Seq<char>, m2: ResourcesView, gs: Seq<char>|
                #[trigger] interns(r0, m1, ResourceKind::Function, t, invert_key(), invert_dict(), invert_dict(), Seq::empty())
                    && #[trigger] soft_mask_made(m1, m2, gs, mask, "Alpha"@, Some(t))
                    && form_made(m2, r1, n1, key, rect.bbox@, gs_stream(rect, gs, input));
            lemma_form_present(m2, r1, n1, key, rect.bbox@, gs_stream(rect, gs, input));
        } else {
            let (m2, gs) = choose|m2: ResourcesView, gs: Seq<char>|
                #[trigger] soft_mask_made(r0, m2, gs, mask, "Alpha"@, None)
                    && form_made(m2, r1, n1, key, rect.bbox@, gs_stream(rect, gs, input));
            lemma_form_present(m2, r1, n1, key, rect.bbox@, gs_stream(rect, gs, input));
        }
    }
}

/// The alpha of the same source twice gives one form.
pub proof fn lemma_source_alpha_form_once(
    r0: ResourcesView,
    r1: ResourcesView,
    r2: ResourcesView,
    n1: Seq<char>,
    n2: Seq<char>,
    source: Seq<char>,
    page: FilterRect,
)
    requires
        source_alpha_made(r0, r1, n1, source, page),
        source_alpha_made(r1, r2, n2, source, page),
    ensures
        r2 == r1,
        n2 == n1,
{
    reveal(source_alpha_made);
    let key = source_alpha_key(source);
    if lookup(r0.forms, key) is None {
        let (m1, black, m2, gs) = choose|m1: ResourcesView, black: Seq<char>, m2: ResourcesView, gs: Seq<char>|
            #[trigger] flood_made(r0, m1, black, black_key(), black_rgb(), black_opacity(), false, page)
                && #[trigger] soft_mask_made(m1, m2, gs, source, "Alpha"@, None) && form_made(
                m2,
                r1,
                n1,
                key,
                page.bbox@,
                "q /"@ + gs + " gs /"@ + black + " Do Q"@,
            );
        lemma_form_present(m2, r1, n1, key, page.bbox@, "q /"@ + gs + " gs /"@ + black + " Do Q"@);
    }
}

/// The luminance-to-alpha of the same input twice gives one form.
pub proof fn lemma_luminance_form_once(
    r0: ResourcesView,
    r1: ResourcesView,
    r2: ResourcesView,
    n1: Seq<char>,
    n2: Seq<char>,
    rect: FilterRect,
    input: Seq<char>,
)
    requires
        luminance_made(r0, r1, n1, rect, input),
        luminance_made(r1, r2, n2, rect, input),
    ensures
        r2 == r1,
        n2 == n1,
{
    reveal(luminance_made);
    let key = luminance_key(input, rect);
    if lookup(r0.forms, key) is None {
        let (m1, gs, m2, black) = choose|m1: ResourcesView, gs: Seq<char>, m2: ResourcesView, black: Seq<char>|
            #[trigger] soft_mask_made(r0, m1, gs, input, "Luminosity"@, None)
                && #[trigger] flood_made(m1, m2, black, black_key(), black_rgb(), black_opacity(), false, rect)
                && form_made(m2, r1, n1, key, rect.bbox@, gs_stream(rect, gs, black));
        lemma_form_present(m2, r1, n1, key, rect.bbox@, gs_stream(rect, gs, black));
    }
}

/// The same transfer functions on the same input twice give one form.
pub proof fn lemma_transfer_form_once(
    r0: ResourcesView,
    r1: ResourcesView,
    r2: ResourcesView,
    n1: Seq<char>,
    n2: Seq<char>,
    rect: FilterRect,
    input: Seq<char>,
    t: TransferFunctions,
)
    requires
        transfer_form_made(r0, r1, n1, rect, input, t),
        transfer_form_made(r1, r2, n2, rect, input, t),
    ensures
        r2 == r1,
        n2 == n1,
{
    reveal(transfer_form_made);
    let key = transfer_form_key(input, t, rect);
    if lookup(r0.forms, key) is None {
        let (mid, gs) = choose|mid: ResourcesView, gs: Seq<char>|
            #[trigger] transfer_gstate_made(r0, mid, gs, t) && form_made(mid, r1, n1, key, rect.bbox@, gs_stream(rect, gs, input));
        lemma_form_present(mid, r1, n1, key, rect.bbox@, gs_stream(rect, gs, input));
    }
}

} // verus!
