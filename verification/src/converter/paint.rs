//! Paint-related decisions that do not depend on coordinates: blend-mode
//! names, which gradients are drawn natively and how spread segments alternate.

use vstd::prelude::*;

verus! {

/// How a gradient continues beyond its end points.
#[derive(Debug, Clone, Copy, PartialEq, Eq, Structural)]
pub enum SpreadMethod {
    Pad,
    Reflect,
    Repeat,
}

/// Blend modes of groups and `feBlend`.
#[derive(Debug, Clone, Copy, PartialEq, Eq, Structural)]
pub enum BlendMode {
    Normal,
    Multiply,
    Screen,
    Overlay,
    Darken,
    Lighten,
    ColorDodge,
    ColorBurn,
    HardLight,
    SoftLight,
    Difference,
    Exclusion,
    Hue,
    Saturation,
    Color,
    Luminosity,
}

/// The PDF name of a blend mode.
pub open spec fn blend_mode_label(m: BlendMode) -> Seq<char> {
    match m {
        BlendMode::Normal => "Normal"@,
        BlendMode::Multiply => "Multiply"@,
        BlendMode::Screen => "Screen"@,
        BlendMode::Overlay => "Overlay"@,
        BlendMode::Darken => "Darken"@,
        BlendMode::Lighten => "Lighten"@,
        BlendMode::ColorDodge => "ColorDodge"@,
        BlendMode::ColorBurn => "ColorBurn"@,
        BlendMode::HardLight => "HardLight"@,
        BlendMode::SoftLight => "SoftLight"@,
        BlendMode::Difference => "Difference"@,
        BlendMode::Exclusion => "Exclusion"@,
        BlendMode::Hue => "Hue"@,
        BlendMode::Saturation => "Saturation"@,
        BlendMode::Color => "Color"@,
        BlendMode::Luminosity => "Luminosity"@,
    }
}

/// The PDF name of a blend mode.
pub fn blend_mode_name(blend_mode: BlendMode) -> (r: &'static str)
    ensures
        r@ == blend_mode_label(blend_mode),
{
    match blend_mode {
        BlendMode::Normal => "Normal",
        BlendMode::Multiply => "Multiply",
        BlendMode::Screen => "Screen",
        BlendMode::Overlay => "Overlay",
        BlendMode::Darken => "Darken",
        BlendMode::Lighten => "Lighten",
        BlendMode::ColorDodge => "ColorDodge",
        BlendMode::ColorBurn => "ColorBurn",
        BlendMode::HardLight => "HardLight",
        BlendMode::SoftLight => "SoftLight",
        BlendMode::Difference => "Difference",
        BlendMode::Exclusion => "Exclusion",
        BlendMode::Hue => "Hue",
        BlendMode::Saturation => "Saturation",
        BlendMode::Color => "Color",
        BlendMode::Luminosity => "Luminosity",
    }
}

/// The PDF blend mode written for each blend mode is the one of the same name:
/// `darken` is written `/Darken`, `lighten` `/Lighten`, and so on for all
/// sixteen.
pub proof fn lemma_blend_mode_names()
    ensures
        blend_mode_label(BlendMode::Normal) == "Normal"@,
        blend_mode_label(BlendMode::Multiply) == "Multiply"@,
        blend_mode_label(BlendMode::Screen) == "Screen"@,
        blend_mode_label(BlendMode::Overlay) == "Overlay"@,
        blend_mode_label(BlendMode::Darken) == "Darken"@,
        blend_mode_label(BlendMode::Lighten) == "Lighten"@,
        blend_mode_label(BlendMode::ColorDodge) == "ColorDodge"@,
        blend_mode_label(BlendMode::ColorBurn) == "ColorBurn"@,
        blend_mode_label(BlendMode::HardLight) == "HardLight"@,
        blend_mode_label(BlendMode::SoftLight) == "SoftLight"@,
        blend_mode_label(BlendMode::Difference) == "Difference"@,
        blend_mode_label(BlendMode::Exclusion) == "Exclusion"@,
        blend_mode_label(BlendMode::Hue) == "Hue"@,
        blend_mode_label(BlendMode::Saturation) == "Saturation"@,
        blend_mode_label(BlendMode::Color) == "Color"@,
        blend_mode_label(BlendMode::Luminosity) == "Luminosity"@,
{
}

/// Every spread method is drawn natively: pad as one shading, reflect and
/// repeat as a sequence of shading segments.
pub open spec fn spec_gradient_is_natively_supported(spread: SpreadMethod) -> bool {
    spread == SpreadMethod::Pad || spread == SpreadMethod::Reflect || spread == SpreadMethod::Repeat
}

/// Whether a gradient with this spread method is drawn without rasterizing.
pub fn gradient_is_natively_supported(spread_method: SpreadMethod) -> (r: bool)
    ensures
        r == spec_gradient_is_natively_supported(spread_method),
{
    match spread_method {
        SpreadMethod::Pad | SpreadMethod::Reflect | SpreadMethod::Repeat => true,
    }
}

/// Segment `segment` of a spread gradient runs backwards: only with `reflect`,
/// and only for odd segments (counting from segment 0 at the start point).
pub open spec fn spec_spread_segment_reversed(spread: SpreadMethod, segment: int) -> bool {
    spread == SpreadMethod::Reflect && segment % 2 == 1
}

/// Whether segment `segment` of a spread gradient runs backwards.
pub fn spread_segment_reversed(spread: SpreadMethod, segment: i32) -> (r: bool)
    ensures
        r == spec_spread_segment_reversed(spread, segment as int),
{
    if spread != SpreadMethod::Reflect {
        return false;
    }
    if segment >= 0 {
        segment % 2 == 1
    } else {
        let t: i32 = -(segment + 1);
        t % 2 == 0
    }
}

} // verus!
