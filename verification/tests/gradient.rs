use svg2tex_rs::converter::gradient::{
    mask_subtype, stitched_function, stops_function, stops_key, type2_function, GradientShading, MaskKind,
    StopText,
};
use svg2tex_rs::{PdfConverter, TexEngine, TexFormat};

fn converter() -> PdfConverter {
    PdfConverter::new(false, TexEngine::PdfTeX, TexFormat::Standalone)
}

fn stop(offset: &str, rgb: &str, gray: &str) -> StopText {
    StopText {
        offset: offset.to_string(),
        rgb: rgb.to_string(),
        gray: gray.to_string(),
        key: format!("{offset}:{}:{gray}", rgb.replace(' ', ":")),
    }
}

fn two_stops() -> Vec<StopText> {
    vec![stop("0.000000", "1.000000 0.000000 0.000000", "1.000000"), stop("1.000000", "0.000000 0.000000 1.000000", "0.500000")]
}

fn three_stops() -> Vec<StopText> {
    vec![
        stop("0.000000", "1.000000 0.000000 0.000000", "1.000000"),
        stop("0.250000", "0.000000 1.000000 0.000000", "0.750000"),
        stop("1.000000", "0.000000 0.000000 1.000000", "0.500000"),
    ]
}

#[test]
fn exponential_function_between_two_colours() {
    assert_eq!(type2_function("1 0 0", "0 0 1"), "<< /FunctionType 2 /Domain [0 1] /C0 [1 0 0] /C1 [0 0 1] /N 1 >>");
}

#[test]
fn stitching_function_encodes_each_piece() {
    let f = stitched_function(&vec!["A".to_string(), "B".to_string(), "C".to_string()], &vec!["0.2".to_string(), "0.7".to_string()]);
    assert_eq!(
        f,
        "<< /FunctionType 3 /Domain [0 1] /Functions [A B C] /Bounds [0.2 0.7] /Encode [0 1 0 1 0 1] >>"
    );
}

#[test]
fn two_stops_give_one_exponential_function() {
    assert_eq!(
        stops_function(&two_stops(), false),
        "<< /FunctionType 2 /Domain [0 1] /C0 [1.000000 0.000000 0.000000] /C1 [0.000000 0.000000 1.000000] /N 1 >>"
    );
    assert_eq!(
        stops_function(&two_stops(), true),
        "<< /FunctionType 2 /Domain [0 1] /C0 [1.000000] /C1 [0.500000] /N 1 >>"
    );
}

#[test]
fn more_stops_are_stitched_at_the_inner_offsets() {
    let expected = "<< /FunctionType 3 /Domain [0 1] /Functions [\
<< /FunctionType 2 /Domain [0 1] /C0 [1.000000] /C1 [0.750000] /N 1 >> \
<< /FunctionType 2 /Domain [0 1] /C0 [0.750000] /C1 [0.500000] /N 1 >>] \
/Bounds [0.250000] /Encode [0 1 0 1] >>";
    assert_eq!(stops_function(&three_stops(), true), expected);
}

#[test]
fn stop_keys_are_joined_by_bars() {
    assert_eq!(
        stops_key(&two_stops()),
        "0.000000:1.000000:0.000000:0.000000:1.000000|1.000000:0.000000:0.000000:1.000000:0.500000"
    );
}

#[test]
fn axial_shading_key_and_dictionary() {
    let mut c = converter();
    let g = GradientShading {
        radial: false,
        gray: false,
        segment: false,
        matrix: "1 0 0 1 0 0".to_string(),
        key_coords: vec!["0".to_string(), "0".to_string(), "10".to_string(), "0".to_string()],
        coords: vec!["0".to_string(), "0".to_string(), "10".to_string(), "0".to_string()],
    };
    let name = c.ensure_gradient_shading(&g, &two_stops());
    assert_eq!(name, "Sh1");
    let e = &c.resources.shading_entries()[0];
    assert_eq!(e.key, format!("axial/1 0 0 1 0 0/0/0/10/0/{}", stops_key(&two_stops())));
    assert_eq!(
        e.pdf_dict,
        format!(
            "<</ShadingType 2 /ColorSpace /DeviceRGB /Coords [0 0 10 0] /Function {} /Extend [true true] /Matrix [1 0 0 1 0 0] /AntiAlias true>>",
            stops_function(&two_stops(), false)
        )
    );
    assert_eq!(e.dvi_dict, e.pdf_dict);
    assert_eq!(c.ensure_gradient_shading(&g, &two_stops()), "Sh1");
    assert_eq!(c.resources.shading_entries().len(), 1);
}

#[test]
fn gray_radial_segment_shading() {
    let mut c = converter();
    let coords: Vec<String> = ["1", "2", "0", "1", "2", "5"].iter().map(|s| s.to_string()).collect();
    let g = GradientShading {
        radial: true,
        gray: true,
        segment: true,
        matrix: "M".to_string(),
        key_coords: coords.clone(),
        coords,
    };
    c.ensure_gradient_shading(&g, &three_stops());
    let e = &c.resources.shading_entries()[0];
    assert!(e.key.starts_with("alpha-radial-segment/M/1/2/0/1/2/5/"));
    assert!(e.pdf_dict.starts_with("<</ShadingType 3 /ColorSpace /DeviceGray /Coords [1 2 0 1 2 5] /Function << /FunctionType 3"));
    assert!(e.pdf_dict.ends_with(" /Extend [false false] /Matrix [M] /AntiAlias true>>"));
}

#[test]
fn gradient_alpha_form_paints_its_shading_over_the_page() {
    let mut c = converter();
    let name = c.ensure_gradient_alpha_form("Sh3", "100.000000", "50.000000");
    assert_eq!(name, "Fm1");
    let e = &c.resources.form_entries()[0];
    assert_eq!(e.key, "alpha-form/Sh3");
    assert_eq!(
        e.pdf_dict,
        "<</Type/XObject/Subtype/Form/BBox [0 0 100.000000 50.000000] /Group <</S /Transparency /CS /DeviceGray>> /Resources <</Shading<</Sh3 \\csname svgobj@Sh3\\endcsname\\space 0 R>>>> /Filter [/ASCIIHexDecode]>>"
    );
    assert_eq!(
        e.dvi_dict,
        "<</Type/XObject/Subtype/Form/BBox [0 0 100.000000 50.000000] /Group <</S /Transparency /CS /DeviceGray>> /Resources <</Shading<</Sh3 @Sh3>>>> /Filter /ASCIIHexDecode>>"
    );
    assert_eq!(String::from_utf8(e.stream.clone()).unwrap(), "q 1 0 0 -1 0 50.000000 cm /Sh3 sh Q");
}

#[test]
fn tiling_pattern_without_resources_has_an_empty_resource_dictionary() {
    let mut c = converter();
    let name = c.ensure_tiling_pattern("pattern/p".to_string(), "4.000000", "3.000000", "1 0 0 1 0 0", b"0 0 m".to_vec());
    assert_eq!(name, "Pt1");
    let e = &c.resources.pattern_entries()[0];
    assert_eq!(
        e.pdf_dict,
        "<</Type/Pattern/PatternType 1/PaintType 1/TilingType 1/BBox [0 0 4.000000 3.000000] /XStep 4.000000 /YStep 3.000000 /Matrix [1 0 0 1 0 0] /Resources <<>> /Filter [/ASCIIHexDecode]>>"
    );
    assert_eq!(
        e.dvi_dict,
        "<</Type/Pattern/PatternType 1/PaintType 1/TilingType 1/BBox [0 0 4.000000 3.000000] /XStep 4.000000 /YStep 3.000000 /Matrix [1 0 0 1 0 0] /Resources <<>> /Filter /ASCIIHexDecode>>"
    );
    assert_eq!(e.stream, b"0 0 m".to_vec());
}

#[test]
fn tiling_pattern_lists_what_was_registered_before() {
    let mut c = converter();
    c.ensure_gradient_alpha_form("Sh1", "1", "1");
    c.ensure_tiling_pattern("pattern/q".to_string(), "1", "1", "M", Vec::new());
    let e = &c.resources.pattern_entries()[0];
    assert!(e.pdf_dict.contains("/Resources <<"));
    assert!(e.pdf_dict.contains("/Fm1"));
}

#[test]
fn mask_kinds_map_to_soft_mask_subtypes() {
    assert_eq!(mask_subtype(MaskKind::Alpha), "Alpha");
    assert_eq!(mask_subtype(MaskKind::Luminance), "Luminosity");
}
