//! Gradient shadings, their colour functions, the soft masks that carry a
//! gradient's opacity, and tiling patterns. Stop offsets, colours and
//! coordinates come in already written out (six decimals); what happens here
//! is how the PDF objects are put together from them and interned.

use vstd::prelude::*;

use super::resources::{
    can_intern, inline_resource_dict, interns, lemma_intern_idempotent, same_but_resources, ResourceKind,
    ResourcesView,
};
use super::latex::{lemma_occurs_in_context, lemma_occurs_in_join, occurs_in};
use super::util::{push_tex_obj_ref, spec_tex_obj_ref};
use super::PdfConverter;
use crate::text::{join, join_strings, views};

verus! {

/// A gradient stop after normalisation, written out: its offset, its colour
/// `r g b`, its opacity, and its part of a gradient key
/// (`offset:r:g:b:opacity`).
pub struct StopText {
    pub offset: String,
    pub rgb: String,
    pub gray: String,
    pub key: String,
}

/// A written-out stop as values.
pub struct StopView {
    pub offset: Seq<char>,
    pub rgb: Seq<char>,
    pub gray: Seq<char>,
    pub key: Seq<char>,
}

impl View for StopText {
    type V = StopView;

    open spec fn view(&self) -> StopView {
        StopView { offset: self.offset@, rgb: self.rgb@, gray: self.gray@, key: self.key@ }
    }
}

/// The views of a list of stops.
pub open spec fn stop_views(stops: Seq<StopText>) -> Seq<StopView> {
    stops.map_values(|s: StopText| s@)
}

// ---------------------------------------------------------------------------
// Functions
// ---------------------------------------------------------------------------

/// The exponential (type 2) function from the colour `c0` to `c1`.
pub open spec fn type2_text(c0: Seq<char>, c1: Seq<char>) -> Seq<char> {
    "<< /FunctionType 2 /Domain [0 1] /C0 ["@ + c0 + "] /C1 ["@ + c1 + "] /N 1 >>"@
}

/// `n` times the encoding `0 1` of a stitched piece.
pub open spec fn unit_encodes(n: nat) -> Seq<Seq<char>> {
    Seq::new(n, |i: int| "0 1"@)
}

/// The stitching (type 3) function of `functions` split at `bounds`, each
/// piece encoded over `[0 1]`.
pub open spec fn stitched_text(functions: Seq<Seq<char>>, bounds: Seq<Seq<char>>) -> Seq<char> {
    "<< /FunctionType 3 /Domain [0 1] /Functions ["@ + join(functions, " "@) + "] /Bounds ["@
        + join(bounds, " "@) + "] /Encode ["@ + join(unit_encodes(functions.len()), " "@) + "] >>"@
}

/// The colour of a stop: its opacity for a gray (alpha) function, else its
/// colour.
pub open spec fn stop_colour(s: StopView, gray: bool) -> Seq<char> {
    if gray {
        s.gray
    } else {
        s.rgb
    }
}

/// One exponential piece between each two neighbouring stops.
pub open spec fn stop_pieces(stops: Seq<StopView>, gray: bool) -> Seq<Seq<char>> {
    Seq::new(
        (stops.len() - 1) as nat,
        |i: int| type2_text(stop_colour(stops[i], gray), stop_colour(stops[i + 1], gray)),
    )
}

/// The offsets of the inner stops, where the pieces meet.
pub open spec fn stop_bounds(stops: Seq<StopView>) -> Seq<Seq<char>> {
    Seq::new((stops.len() - 2) as nat, |i: int| stops[i + 1].offset)
}

/// The function of a gradient through `stops`: a single exponential piece for
/// two stops, else the pieces stitched at the inner offsets.
pub open spec fn stops_function_text(stops: Seq<StopView>, gray: bool) -> Seq<char> {
    if stops.len() == 2 {
        type2_text(stop_colour(stops[0], gray), stop_colour(stops[1], gray))
    } else {
        stitched_text(stop_pieces(stops, gray), stop_bounds(stops))
    }
}

/// The key part of `stops`: their keys separated by `|`.
pub open spec fn stops_key_text(stops: Seq<StopView>) -> Seq<char> {
    join(stops.map_values(|s: StopView| s.key), "|"@)
}

/// The exponential function from `c0` to `c1`.
pub fn type2_function(c0: &str, c1: &str) -> (r: String)
    ensures
        r@ == type2_text(c0@, c1@),
{
    let mut r = String::new();
    r.append("<< /FunctionType 2 /Domain [0 1] /C0 [");
    r.append(c0);
    r.append("] /C1 [");
    r.append(c1);
    r.append("] /N 1 >>");
    proof {
        assert(r@ =~= type2_text(c0@, c1@));
    }
    r
}

/// The stitching function of `functions` split at `bounds`.
pub fn stitched_function(functions: &Vec<String>, bounds: &Vec<String>) -> (r: String)
    ensures
        r@ == stitched_text(views(functions@), views(bounds@)),
{
    let mut encodes: Vec<String> = Vec::new();
    let mut i: usize = 0;
    while i < functions.len()
        invariant
            i <= functions@.len(),
            views(encodes@) =~= unit_encodes(i as nat),
        decreases functions@.len() - i,
    {
        let ghost before = views(encodes@);
        let unit = "0 1".to_owned();
        encodes.push(unit);
        proof {
            assert(views(encodes@) =~= before.push("0 1"@));
            assert(unit_encodes((i + 1) as nat) =~= unit_encodes(i as nat).push("0 1"@));
        }
        i = i + 1;
    }
    let mut r = String::new();
    r.append("<< /FunctionType 3 /Domain [0 1] /Functions [");
    let joined = join_strings(functions.as_slice(), " ");
    r.append(joined.as_str());
    r.append("] /Bounds [");
    let joined = join_strings(bounds.as_slice(), " ");
    r.append(joined.as_str());
    r.append("] /Encode [");
    let joined = join_strings(encodes.as_slice(), " ");
    r.append(joined.as_str());
    r.append("] >>");
    proof {
        assert(views(functions@).len() == functions@.len());
        assert(r@ =~= stitched_text(views(functions@), views(bounds@)));
    }
    r
}

/// The function of a gradient through `stops` (gray: through their
/// opacities).
pub fn stops_function(stops: &Vec<StopText>, gray: bool) -> (r: String)
    requires
        stops@.len() >= 2,
    ensures
        r@ == stops_function_text(stop_views(stops@), gray),
{
    let ghost sv = stop_views(stops@);
    let n = stops.len();
    if n == 2 {
        let (c0, c1) = if gray {
            (stops[0].gray.as_str(), stops[1].gray.as_str())
        } else {
            (stops[0].rgb.as_str(), stops[1].rgb.as_str())
        };
        return type2_function(c0, c1);
    }
    let mut pieces: Vec<String> = Vec::new();
    let mut bounds: Vec<String> = Vec::new();
    let mut i: usize = 0;
    while i + 1 < n
        invariant
            n == stops@.len(),
            n > 2,
            sv == stop_views(stops@),
            i + 1 <= n,
            views(pieces@) =~= stop_pieces(sv, gray).take(i as int),
            views(bounds@) =~= stop_bounds(sv).take(if i == 0 { 0 } else { i - 1 }),
        decreases n - i,
    {
        let (c0, c1) = if gray {
            (stops[i].gray.as_str(), stops[i + 1].gray.as_str())
        } else {
            (stops[i].rgb.as_str(), stops[i + 1].rgb.as_str())
        };
        let piece = type2_function(c0, c1);
        let ghost p0 = views(pieces@);
        let ghost b0 = views(bounds@);
        proof {
            assert(sv[i as int] == stops@[i as int]@);
            assert(sv[i + 1] == stops@[i + 1]@);
            assert(piece@ == stop_pieces(sv, gray)[i as int]);
        }
        pieces.push(piece);
        proof {
            assert(views(pieces@) =~= p0.push(stop_pieces(sv, gray)[i as int]));
            assert(stop_pieces(sv, gray).take(i + 1) =~= stop_pieces(sv, gray).take(i as int).push(stop_pieces(sv, gray)[i as int]));
        }
        if i > 0 {
            let offset = stops[i].offset.clone();
            bounds.push(offset);
            proof {
                assert(stop_bounds(sv)[i - 1] == sv[i as int].offset);
                assert(views(bounds@) =~= b0.push(sv[i as int].offset));
                assert(stop_bounds(sv).take(i as int) =~= stop_bounds(sv).take(i - 1).push(stop_bounds(sv)[i - 1]));
            }
        }
        i = i + 1;
    }
    proof {
        assert(stop_pieces(sv, gray).take(i as int) =~= stop_pieces(sv, gray));
        assert(stop_bounds(sv).take(i - 1) =~= stop_bounds(sv));
    }
    stitched_function(&pieces, &bounds)
}

/// The key part of `stops`.
pub fn stops_key(stops: &Vec<StopText>) -> (r: String)
    ensures
        r@ == stops_key_text(stop_views(stops@)),
{
    let mut keys: Vec<String> = Vec::new();
    let mut i: usize = 0;
    let ghost sv = stop_views(stops@);
    while i < stops.len()
        invariant
            i <= stops@.len(),
            sv == stop_views(stops@),
            views(keys@) =~= sv.map_values(|s: StopView| s.key).take(i as int),
        decreases stops@.len() - i,
    {
        let ghost k0 = views(keys@);
        let k = stops[i].key.clone();
        keys.push(k);
        proof {
            assert(sv[i as int] == stops@[i as int]@);
            assert(views(keys@) =~= k0.push(sv[i as int].key));
            assert(sv.map_values(|s: StopView| s.key).take(i + 1) =~= sv.map_values(|s: StopView| s.key).take(i as int).push(sv[i as int].key));
        }
        i = i + 1;
    }
    proof {
        assert(sv.map_values(|s: StopView| s.key).take(i as int) =~= sv.map_values(|s: StopView| s.key));
    }
    join_strings(keys.as_slice(), "|")
}

// ---------------------------------------------------------------------------
// Shadings
// ---------------------------------------------------------------------------

/// A gradient's shading, written out: radial or axial; its colour (or, gray,
/// its opacity); one segment of a spread gradient (not extended) or the whole
/// gradient (extended at both ends); its matrix; its coordinates as they
/// appear in its key and in its dictionary.
pub struct GradientShading {
    pub radial: bool,
    pub gray: bool,
    pub segment: bool,
    pub matrix: String,
    pub key_coords: Vec<String>,
    pub coords: Vec<String>,
}

/// The first part of a shading's key.
pub open spec fn shading_prefix(g: GradientShading) -> Seq<char> {
    let alpha = if g.gray { "alpha-"@ } else { Seq::empty() };
    let segment = if g.segment { "-segment"@ } else { Seq::empty() };
    alpha + (if g.radial { "radial"@ } else { "axial"@ }) + segment
}

/// The key of a shading through `stops`.
pub open spec fn shading_key(g: GradientShading, stops: Seq<StopView>) -> Seq<char> {
    shading_prefix(g) + "/"@ + g.matrix@ + "/"@ + join(views(g.key_coords@), "/"@) + "/"@ + stops_key_text(stops)
}

/// The dictionary of a shading through `stops`.
pub open spec fn shading_dict(g: GradientShading, stops: Seq<StopView>) -> Seq<char> {
    "<</ShadingType "@ + (if g.radial { "3"@ } else { "2"@ }) + " /ColorSpace /"@ + (if g.gray {
        "DeviceGray"@
    } else {
        "DeviceRGB"@
    }) + " /Coords ["@ + join(views(g.coords@), " "@) + "] /Function "@ + stops_function_text(stops, g.gray)
        + " /Extend ["@ + (if g.segment { "false false"@ } else { "true true"@ }) + "] /Matrix ["@ + g.matrix@
        + "] /AntiAlias true>>"@
}

/// The key of the gray form that paints the shading `shading` over the page.
pub open spec fn alpha_form_key(shading: Seq<char>) -> Seq<char> {
    "alpha-form/"@ + shading
}

/// The dictionary (PDF output) of that form over a page of `width` by `height`.
pub open spec fn alpha_form_pdf_dict(shading: Seq<char>, width: Seq<char>, height: Seq<char>) -> Seq<char> {
    "<</Type/XObject/Subtype/Form/BBox [0 0 "@ + width + " "@ + height
        + "] /Group <</S /Transparency /CS /DeviceGray>> /Resources <</Shading<</"@ + shading + " "@
        + spec_tex_obj_ref(shading) + ">>>> /Filter [/ASCIIHexDecode]>>"@
}

/// The dictionary (DVI output) of that form.
pub open spec fn alpha_form_dvi_dict(shading: Seq<char>, width: Seq<char>, height: Seq<char>) -> Seq<char> {
    "<</Type/XObject/Subtype/Form/BBox [0 0 "@ + width + " "@ + height
        + "] /Group <</S /Transparency /CS /DeviceGray>> /Resources <</Shading<</"@ + shading + " @"@ + shading
        + ">>>> /Filter /ASCIIHexDecode>>"@
}

/// The drawing of that form: the shading, flipped to the page's orientation.
pub open spec fn alpha_form_stream(shading: Seq<char>, height: Seq<char>) -> Seq<char> {
    "q 1 0 0 -1 0 "@ + height + " cm /"@ + shading + " sh Q"@
}

/// A tiling pattern's dictionary over a cell of `width` by `height`, with its
/// `resources` (empty: none).
pub open spec fn tiling_pattern_dict(
    width: Seq<char>,
    height: Seq<char>,
    matrix: Seq<char>,
    resources: Seq<char>,
    dvi: bool,
) -> Seq<char> {
    "<</Type/Pattern/PatternType 1/PaintType 1/TilingType 1/BBox [0 0 "@ + width + " "@ + height + "] /XStep "@
        + width + " /YStep "@ + height + " /Matrix ["@ + matrix + "] /Resources "@ + (if resources.len() == 0 {
        "<<>>"@
    } else {
        resources
    }) + (if dvi { " /Filter /ASCIIHexDecode>>"@ } else { " /Filter [/ASCIIHexDecode]>>"@ })
}

/// The kinds of SVG masks.
#[derive(Debug, Clone, Copy, PartialEq, Eq, Structural)]
pub enum MaskKind {
    Alpha,
    Luminance,
}

/// The soft-mask subtype of a mask kind.
pub open spec fn mask_subtype_text(kind: MaskKind) -> Seq<char> {
    match kind {
        MaskKind::Alpha => "Alpha"@,
        MaskKind::Luminance => "Luminosity"@,
    }
}

/// The soft-mask subtype of a mask kind.
pub fn mask_subtype(kind: MaskKind) -> (r: &'static str)
    ensures
        r@ == mask_subtype_text(kind),
{
    match kind {
        MaskKind::Alpha => "Alpha",
        MaskKind::Luminance => "Luminosity",
    }
}

/// A gradient asked for again right after it was interned keeps its shading's
/// name and changes nothing.
pub proof fn lemma_shading_once(
    r0: ResourcesView,
    r1: ResourcesView,
    r2: ResourcesView,
    n1: Seq<char>,
    n2: Seq<char>,
    g: GradientShading,
    stops: Seq<StopView>,
)
    requires
        interns(r0, r1, ResourceKind::Shading, n1, shading_key(g, stops), shading_dict(g, stops), shading_dict(g, stops), Seq::empty()),
        interns(r1, r2, ResourceKind::Shading, n2, shading_key(g, stops), shading_dict(g, stops), shading_dict(g, stops), Seq::empty()),
    ensures
        n2 == n1,
        r2 == r1,
{
    let d = shading_dict(g, stops);
    lemma_intern_idempotent(r0, r1, r2, ResourceKind::Shading, shading_key(g, stops), n1, n2, d, d, Seq::empty(), d, d, Seq::empty());
}

/// Each piece of a gradient's function is the exponential function between
/// two neighbouring stops, in the stops' colours (in their opacities for a
/// gray function): for every `i`, the function from stop `i` to stop `i + 1`
/// occurs in the function of the gradient, whatever the number of stops.
pub proof fn lemma_stops_function_pieces(stops: Seq<StopView>, gray: bool, i: int)
    requires
        stops.len() >= 2,
        0 <= i < stops.len() - 1,
    ensures
        occurs_in(
            "<< /FunctionType 2 /Domain [0 1] /C0 ["@ + (if gray { stops[i].gray } else { stops[i].rgb }) + "] /C1 ["@
                + (if gray { stops[i + 1].gray } else { stops[i + 1].rgb }) + "] /N 1 >>"@,
            stops_function_text(stops, gray),
        ),
{
    let piece = "<< /FunctionType 2 /Domain [0 1] /C0 ["@ + (if gray { stops[i].gray } else { stops[i].rgb })
        + "] /C1 ["@ + (if gray { stops[i + 1].gray } else { stops[i + 1].rgb }) + "] /N 1 >>"@;
    if stops.len() == 2 {
        assert(stops_function_text(stops, gray) =~= Seq::<char>::empty() + piece + Seq::<char>::empty());
    } else {
        let pieces = stop_pieces(stops, gray);
        assert(pieces[i] == piece);
        lemma_occurs_in_join(pieces, " "@, i);
        let head = "<< /FunctionType 3 /Domain [0 1] /Functions ["@;
        let tail = "] /Bounds ["@ + join(stop_bounds(stops), " "@) + "] /Encode ["@ + join(unit_encodes(pieces.len()), " "@)
            + "] >>"@;
        assert(stops_function_text(stops, gray) =~= head + join(pieces, " "@) + tail);
        lemma_occurs_in_context(piece, join(pieces, " "@), head, tail);
    }
}

/// With more than two stops the pieces are stitched at the offsets of the
/// inner stops, in order, one piece less than there are stops, each piece
/// encoded over `[0 1]`.
pub proof fn lemma_stops_function_bounds(stops: Seq<StopView>, gray: bool)
    requires
        stops.len() > 2,
    ensures
        occurs_in(
            "] /Bounds ["@ + join(Seq::new((stops.len() - 2) as nat, |k: int| stops[k + 1].offset), " "@) + "] /Encode ["@
                + join(Seq::new((stops.len() - 1) as nat, |k: int| "0 1"@), " "@) + "] >>"@,
            stops_function_text(stops, gray),
        ),
{
    let bounds = Seq::new((stops.len() - 2) as nat, |k: int| stops[k + 1].offset);
    let encodes = Seq::new((stops.len() - 1) as nat, |k: int| "0 1"@);
    assert(stop_bounds(stops) =~= bounds);
    assert(unit_encodes(stop_pieces(stops, gray).len()) =~= encodes);
    let head = "<< /FunctionType 3 /Domain [0 1] /Functions ["@ + join(stop_pieces(stops, gray), " "@);
    let t = "] /Bounds ["@ + join(bounds, " "@) + "] /Encode ["@ + join(encodes, " "@) + "] >>"@;
    assert(stops_function_text(stops, gray) =~= head + t + Seq::<char>::empty());
}

/// A shading's dictionary opens with its type, 3 (radial) exactly for radial
/// gradients and 2 (axial) otherwise, whether it is an opacity shading or a
/// spread segment, then its colour space, DeviceGray exactly for the opacity
/// shadings and DeviceRGB otherwise.
pub proof fn lemma_shading_dict_type(g: GradientShading, stops: Seq<StopView>)
    ensures
        shading_dict(g, stops).take(if g.gray { 40int } else { 39int }) == if g.radial {
            if g.gray {
                "<</ShadingType 3 /ColorSpace /DeviceGray"@
            } else {
                "<</ShadingType 3 /ColorSpace /DeviceRGB"@
            }
        } else {
            if g.gray {
                "<</ShadingType 2 /ColorSpace /DeviceGray"@
            } else {
                "<</ShadingType 2 /ColorSpace /DeviceRGB"@
            }
        },
{
    let ty = if g.radial { "3"@ } else { "2"@ };
    let cs = if g.gray { "DeviceGray"@ } else { "DeviceRGB"@ };
    let open = "<</ShadingType "@ + ty + " /ColorSpace /"@ + cs;
    let d = shading_dict(g, stops);
    let rest = " /Coords ["@ + join(views(g.coords@), " "@) + "] /Function "@ + stops_function_text(stops, g.gray)
        + " /Extend ["@ + (if g.segment { "false false"@ } else { "true true"@ }) + "] /Matrix ["@ + g.matrix@
        + "] /AntiAlias true>>"@;
    assert(d =~= open + rest);
    reveal_strlit("<</ShadingType ");
    reveal_strlit(" /ColorSpace /");
    if g.radial {
        reveal_strlit("3");
    } else {
        reveal_strlit("2");
    }
    if g.gray {
        reveal_strlit("DeviceGray");
    } else {
        reveal_strlit("DeviceRGB");
    }
    assert(open.len() == if g.gray { 40int } else { 39int });
    assert(d.take(open.len() as int) =~= open);
    if g.radial {
        if g.gray {
            reveal_strlit("<</ShadingType 3 /ColorSpace /DeviceGray");
        } else {
            reveal_strlit("<</ShadingType 3 /ColorSpace /DeviceRGB");
        }
    } else {
        if g.gray {
            reveal_strlit("<</ShadingType 2 /ColorSpace /DeviceGray");
        } else {
            reveal_strlit("<</ShadingType 2 /ColorSpace /DeviceRGB");
        }
    }
}

/// A shading's dictionary holds the gradient's function through its stops in
/// the shading's colour space (their opacities for an opacity shading), and
/// its ends are extended exactly when it is the whole gradient rather than one
/// spread segment.
pub proof fn lemma_shading_dict_function_and_extend(g: GradientShading, stops: Seq<StopView>)
    ensures
        occurs_in("] /Function "@ + stops_function_text(stops, g.gray), shading_dict(g, stops)),
        occurs_in(
            " /Extend ["@ + (if g.segment { "false false"@ } else { "true true"@ }) + "] /Matrix ["@,
            shading_dict(g, stops),
        ),
{
    let d = shading_dict(g, stops);
    let open = "<</ShadingType "@ + (if g.radial { "3"@ } else { "2"@ }) + " /ColorSpace /"@ + (if g.gray {
        "DeviceGray"@
    } else {
        "DeviceRGB"@
    }) + " /Coords ["@ + join(views(g.coords@), " "@);
    let f = "] /Function "@ + stops_function_text(stops, g.gray);
    let ext = " /Extend ["@ + (if g.segment { "false false"@ } else { "true true"@ }) + "] /Matrix ["@;
    let tail = g.matrix@ + "] /AntiAlias true>>"@;
    assert(d =~= open + f + (ext + tail));
    assert(d =~= (open + f) + ext + tail);
}

fn append_joined(out: &mut String, parts: &Vec<String>, sep: &str)
    ensures
        final(out)@ == old(out)@ + join(views(parts@), sep@),
{
    let joined = join_strings(parts.as_slice(), sep);
    out.append(joined.as_str());
}

impl PdfConverter {
    /// Interns the shading of `g` through `stops`; returns its name (`Sh<n>`).
    pub fn ensure_gradient_shading(&mut self, g: &GradientShading, stops: &Vec<StopText>) -> (name: String)
        requires
            stops@.len() >= 2,
            can_intern(old(self).resources@, ResourceKind::Shading, shading_key(*g, stop_views(stops@))),
        ensures
            final(self).resources@.wf(),
            interns(
                old(self).resources@,
                final(self).resources@,
                ResourceKind::Shading,
                name@,
                shading_key(*g, stop_views(stops@)),
                shading_dict(*g, stop_views(stops@)),
                shading_dict(*g, stop_views(stops@)),
                Seq::empty(),
            ),
            same_but_resources(final(self), old(self)),
    {
        let ghost sv = stop_views(stops@);
        let mut key = String::new();
        if g.gray {
            key.append("alpha-");
        }
        if g.radial {
            key.append("radial");
        } else {
            key.append("axial");
        }
        if g.segment {
            key.append("-segment");
        }
        proof {
            assert(key@ =~= shading_prefix(*g));
        }
        key.append("/");
        key.append(g.matrix.as_str());
        key.append("/");
        append_joined(&mut key, &g.key_coords, "/");
        key.append("/");
        let stops_part = stops_key(stops);
        key.append(stops_part.as_str());

        let mut dict = String::new();
        dict.append("<</ShadingType ");
        if g.radial {
            dict.append("3");
        } else {
            dict.append("2");
        }
        dict.append(" /ColorSpace /");
        if g.gray {
            dict.append("DeviceGray");
        } else {
            dict.append("DeviceRGB");
        }
        dict.append(" /Coords [");
        append_joined(&mut dict, &g.coords, " ");
        dict.append("] /Function ");
        let function = stops_function(stops, g.gray);
        dict.append(function.as_str());
        dict.append(" /Extend [");
        if g.segment {
            dict.append("false false");
        } else {
            dict.append("true true");
        }
        dict.append("] /Matrix [");
        dict.append(g.matrix.as_str());
        dict.append("] /AntiAlias true>>");
        proof {
            assert(key@ =~= shading_key(*g, sv));
            assert(dict@ =~= shading_dict(*g, sv));
        }
        self.ensure_shading(key, dict)
    }

    /// Interns the gray form that paints the shading `shading_name` over a
    /// page of `width` by `height` (written out); returns its name.
    pub fn ensure_gradient_alpha_form(&mut self, shading_name: &str, width: &str, height: &str) -> (name: String)
        requires
            can_intern(old(self).resources@, ResourceKind::Form, alpha_form_key(shading_name@)),
        ensures
            final(self).resources@.wf(),
            interns(
                old(self).resources@,
                final(self).resources@,
                ResourceKind::Form,
                name@,
                alpha_form_key(shading_name@),
                alpha_form_pdf_dict(shading_name@, width@, height@),
                alpha_form_dvi_dict(shading_name@, width@, height@),
                vstd::utf8::encode_utf8(alpha_form_stream(shading_name@, height@)),
            ),
            same_but_resources(final(self), old(self)),
    {
        let mut key = String::new();
        key.append("alpha-form/");
        key.append(shading_name);

        let mut pdf_dict = String::new();
        pdf_dict.append("<</Type/XObject/Subtype/Form/BBox [0 0 ");
        pdf_dict.append(width);
        pdf_dict.append(" ");
        pdf_dict.append(height);
        pdf_dict.append("] /Group <</S /Transparency /CS /DeviceGray>> /Resources <</Shading<</");
        pdf_dict.append(shading_name);
        pdf_dict.append(" ");
        push_tex_obj_ref(&mut pdf_dict, shading_name);
        pdf_dict.append(">>>> /Filter [/ASCIIHexDecode]>>");

        let mut dvi_dict = String::new();
        dvi_dict.append("<</Type/XObject/Subtype/Form/BBox [0 0 ");
        dvi_dict.append(width);
        dvi_dict.append(" ");
        dvi_dict.append(height);
        dvi_dict.append("] /Group <</S /Transparency /CS /DeviceGray>> /Resources <</Shading<</");
        dvi_dict.append(shading_name);
        dvi_dict.append(" @");
        dvi_dict.append(shading_name);
        dvi_dict.append(">>>> /Filter /ASCIIHexDecode>>");

        let mut s = String::new();
        s.append("q 1 0 0 -1 0 ");
        s.append(height);
        s.append(" cm /");
        s.append(shading_name);
        s.append(" sh Q");
        proof {
            assert(key@ =~= alpha_form_key(shading_name@));
            assert(pdf_dict@ =~= alpha_form_pdf_dict(shading_name@, width@, height@));
            assert(dvi_dict@ =~= alpha_form_dvi_dict(shading_name@, width@, height@));
            assert(s@ =~= alpha_form_stream(shading_name@, height@));
        }
        let stream = vstd::slice::slice_to_vec(s.as_str().as_bytes());
        self.ensure_form(key, pdf_dict, dvi_dict, stream)
    }

    /// Interns the tiling pattern `key` over a cell of `width` by `height`
    /// drawing `stream`, its resources being everything registered so far;
    /// returns its name (`Pt<n>`).
    pub fn ensure_tiling_pattern(
        &mut self,
        key: String,
        width: &str,
        height: &str,
        matrix: &str,
        stream: Vec<u8>,
    ) -> (name: String)
        requires
            can_intern(old(self).resources@, ResourceKind::Pattern, key@),
        ensures
            final(self).resources@.wf(),
            interns(
                old(self).resources@,
                final(self).resources@,
                ResourceKind::Pattern,
                name@,
                key@,
                tiling_pattern_dict(width@, height@, matrix@, inline_resource_dict(old(self).resources@, true, false), false),
                tiling_pattern_dict(width@, height@, matrix@, inline_resource_dict(old(self).resources@, true, true), true),
                stream@,
            ),
            same_but_resources(final(self), old(self)),
    {
        let pdf_resources = self.inline_pdf_resource_dict(true);
        let dvi_resources = self.inline_dvi_resource_dict(true);
        let pdf_dict = tiling_dict(width, height, matrix, &pdf_resources, false);
        let dvi_dict = tiling_dict(width, height, matrix, &dvi_resources, true);
        self.ensure_pattern(key, pdf_dict, dvi_dict, stream)
    }
}

fn tiling_dict(width: &str, height: &str, matrix: &str, resources: &String, dvi: bool) -> (r: String)
    ensures
        r@ == tiling_pattern_dict(width@, height@, matrix@, resources@, dvi),
{
    let mut r = String::new();
    r.append("<</Type/Pattern/PatternType 1/PaintType 1/TilingType 1/BBox [0 0 ");
    r.append(width);
    r.append(" ");
    r.append(height);
    r.append("] /XStep ");
    r.append(width);
    r.append(" /YStep ");
    r.append(height);
    r.append(" /Matrix [");
    r.append(matrix);
    r.append("] /Resources ");
    if resources.as_str().is_empty() {
        r.append("<<>>");
    } else {
        r.append(resources.as_str());
    }
    if dvi {
        r.append(" /Filter /ASCIIHexDecode>>");
    } else {
        r.append(" /Filter [/ASCIIHexDecode]>>");
    }
    proof {
        assert(r@ =~= tiling_pattern_dict(width@, height@, matrix@, resources@, dvi));
    }
    r
}

} // verus!
