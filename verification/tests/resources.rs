use svg2tex_rs::converter::image::ImageResource;
use svg2tex_rs::converter::resources::PdfResources;
use svg2tex_rs::{PdfConverter, TexEngine, TexFormat};

fn converter() -> PdfConverter {
    PdfConverter::new(false, TexEngine::PdfTeX, TexFormat::Standalone)
}

fn image(width: u32) -> ImageResource {
    ImageResource {
        width,
        height: 1,
        color_space: "DeviceRGB".to_string(),
        bits_per_component: 8,
        filter: "FlateDecode".to_string(),
        data: vec![0x78, 0x9C, 0x03, 0x00, 0x00, 0x00, 0x00, 0x01],
        smask: None,
    }
}

#[test]
fn object_numbers_start_at_one_and_advance() {
    let mut resources = PdfResources::new();
    assert_eq!(resources.next_id(), 1);
    assert_eq!(resources.get_next_id(), 1);
    assert_eq!(resources.get_next_id(), 2);
    assert_eq!(resources.next_id(), 3);
}

#[test]
fn interning_the_same_graphics_state_twice_gives_one_object() {
    let mut c = converter();
    let entries = vec!["/ca 0.500000".to_string()];
    assert_eq!(c.ensure_ext_gstate(&entries), Some("GS1".to_string()));
    assert_eq!(c.ensure_ext_gstate(&entries), Some("GS1".to_string()));
    assert_eq!(c.resources.ext_gstate_entries().len(), 1);
    let e = &c.resources.ext_gstate_entries()[0];
    assert_eq!(e.key, "/ca 0.500000");
    assert_eq!(e.pdf_dict, "<</Type/ExtGState /ca 0.500000>>");
    assert_eq!(e.dvi_dict, "<</Type/ExtGState /ca 0.500000>>");
    let two = vec!["/CA 1.000000".to_string(), "/ca 0.250000".to_string()];
    assert_eq!(c.ensure_ext_gstate(&two), Some("GS2".to_string()));
    assert_eq!(c.resources.ext_gstate_entries()[1].key, "/CA 1.000000 /ca 0.250000");
    assert_eq!(c.ensure_ext_gstate(&[]), None);
    assert_eq!(c.resources.next_id(), 3);
}

#[test]
fn kinds_share_one_counter_with_their_own_prefixes() {
    let mut c = converter();
    assert_eq!(c.ensure_function("f".to_string(), "<<F>>".to_string(), "<<F>>".to_string()), "Fn1");
    assert_eq!(c.ensure_shading("s".to_string(), "<<S>>".to_string()), "Sh2");
    assert_eq!(c.ensure_form("m".to_string(), "<<P>>".to_string(), "<<D>>".to_string(), vec![1, 2]), "Fm3");
    assert_eq!(c.ensure_pattern("p".to_string(), "<<P>>".to_string(), "<<D>>".to_string(), vec![3]), "Pt4");
    assert_eq!(c.ensure_ext_gstate_with_dicts("g".to_string(), "<<G>>".to_string(), "<<H>>".to_string()), "GS5");
    assert_eq!(c.ensure_function("f".to_string(), "other".to_string(), "other".to_string()), "Fn1");
    assert_eq!(c.resources.function_entries()[0].pdf_dict, "<<F>>");
    assert_eq!(c.form_name(&"m".to_string()), Some("Fm3".to_string()));
    assert_eq!(c.form_name(&"x".to_string()), None);
    assert_eq!(c.pattern_name(&"p".to_string()), Some("Pt4".to_string()));
    assert_eq!(c.resources.shading_entries()[0].dvi_dict, "<<S>>");
}

#[test]
fn soft_mask_graphics_states_reference_their_form() {
    let mut c = converter();
    let name = c.ensure_soft_mask_ext_gstate("Fm7", "Alpha");
    assert_eq!(name, "GS1");
    let e = &c.resources.ext_gstate_entries()[0];
    assert_eq!(e.key, "soft-mask/Alpha/Fm7/identity");
    assert_eq!(
        e.pdf_dict,
        "<</Type/ExtGState /SMask <</S /Alpha /G \\csname svgobj@Fm7\\endcsname\\space 0 R>>>>"
    );
    assert_eq!(e.dvi_dict, "<</Type/ExtGState /SMask <</S /Alpha /G @Fm7>>>>");

    let with_transfer = c.ensure_soft_mask_ext_gstate_with_transfer("Fm7", "Luminosity", Some("Fn3"));
    assert_eq!(with_transfer, "GS2");
    let e = &c.resources.ext_gstate_entries()[1];
    assert_eq!(e.key, "soft-mask/Luminosity/Fm7/Fn3");
    assert_eq!(
        e.pdf_dict,
        "<</Type/ExtGState /SMask <</S /Luminosity /G \\csname svgobj@Fm7\\endcsname\\space 0 R /TR \\csname svgobj@Fn3\\endcsname\\space 0 R>>>>"
    );
    assert_eq!(e.dvi_dict, "<</Type/ExtGState /SMask <</S /Luminosity /G @Fm7 /TR @Fn3>>>>");
    assert_eq!(c.ensure_soft_mask_ext_gstate("Fm7", "Alpha"), "GS1");
}

#[test]
fn invert_transfer_function_is_interned_once() {
    let mut c = converter();
    assert_eq!(c.ensure_invert_transfer_function(), "Fn1");
    assert_eq!(c.ensure_invert_transfer_function(), "Fn1");
    let e = &c.resources.function_entries()[0];
    assert_eq!(e.key, "filter/transfer/invert");
    assert_eq!(e.pdf_dict, "<< /FunctionType 2 /Domain [0 1] /C0 [1] /C1 [0] /N 1 >>");
}

#[test]
fn objects_are_listed_in_byte_order_of_their_names() {
    let mut c = converter();
    for k in 0..10 {
        c.ensure_ext_gstate_with_dicts(format!("k{k}"), String::new(), String::new());
    }
    // GS1 .. GS10: "GS10" sorts between "GS1" and "GS2".
    let order = c.sorted_ext_gstates();
    let names: Vec<&str> = order
        .iter()
        .map(|&i| c.resources.ext_gstate_entries()[i].name.as_str())
        .collect();
    assert_eq!(names, vec!["GS1", "GS10", "GS2", "GS3", "GS4", "GS5", "GS6", "GS7", "GS8", "GS9"]);
}

#[test]
fn registering_an_image_twice_replaces_it_in_place() {
    let mut c = converter();
    c.resources.insert_image("Img2".to_string(), image(1));
    c.resources.insert_image("Img1".to_string(), image(2));
    c.resources.insert_image("Img2".to_string(), image(5));
    let images = c.resources.image_entries();
    assert_eq!(images.len(), 2);
    assert_eq!(images[0].name, "Img2");
    assert_eq!(images[0].image.width, 5);
    assert_eq!(c.sorted_images(), vec![1, 0]);
}

#[test]
fn object_references_keep_the_space_before_the_generation() {
    assert_eq!(PdfConverter::tex_obj_macro("GS1"), "\\csname svgobj@GS1\\endcsname");
    assert_eq!(PdfConverter::tex_obj_ref("GS1"), "\\csname svgobj@GS1\\endcsname\\space 0 R");
}

#[test]
fn page_resources_list_each_xobject_once_with_spaced_references() {
    let mut c = converter();
    c.ensure_ext_gstate_with_dicts(
        "/ca 0.500000".to_string(),
        "<</Type/ExtGState /ca 0.500000>>".to_string(),
        "<</Type/ExtGState /ca 0.500000>>".to_string(),
    );
    c.resources.insert_image("Img2".to_string(), image(1));
    c.resources.insert_image("Img3".to_string(), image(1));
    let resources = c.build_pdf_page_resources();
    assert_eq!(resources.matches("/XObject<<").count(), 1);
    assert!(resources.contains("/Img2 \\csname svgobj@Img2\\endcsname\\space 0 R"));
    assert!(resources.contains("/Img3 \\csname svgobj@Img3\\endcsname\\space 0 R"));
    assert_eq!(
        resources,
        "  /ExtGState<</GS1 \\csname svgobj@GS1\\endcsname\\space 0 R>>\n  /XObject<</Img2 \\csname svgobj@Img2\\endcsname\\space 0 R /Img3 \\csname svgobj@Img3\\endcsname\\space 0 R>>\n"
    );
    assert_eq!(
        c.generate_dvi_page_resources(),
        "\\special{pdf:put @resources <</ExtGState<</GS1 @GS1>> /XObject<</Img2 @Img2 /Img3 @Img3>>>>}\n"
    );
}

#[test]
fn empty_registry_has_no_page_resources() {
    let c = converter();
    assert_eq!(c.build_pdf_page_resources(), "");
    assert_eq!(c.generate_dvi_page_resources(), "");
    assert_eq!(c.inline_pdf_resource_dict(true), "");
    assert_eq!(c.inline_dvi_resource_dict(false), "");
}

#[test]
fn inline_resource_dictionaries_follow_the_registry() {
    let mut c = converter();
    c.ensure_ext_gstate_with_dicts("a".to_string(), String::new(), String::new());
    c.ensure_shading("s".to_string(), String::new());
    c.ensure_pattern("p".to_string(), String::new(), String::new(), Vec::new());
    c.ensure_form("f".to_string(), String::new(), String::new(), Vec::new());
    c.resources.insert_image("Img9".to_string(), image(1));
    assert_eq!(
        c.inline_dvi_resource_dict(true),
        "<</ExtGState<</GS1 @GS1>> /Shading<</Sh2 @Sh2>> /Pattern<</Pt3 @Pt3>> /XObject<</Img9 @Img9 /Fm4 @Fm4>>>>"
    );
    assert_eq!(
        c.inline_dvi_resource_dict(false),
        "<</ExtGState<</GS1 @GS1>> /Shading<</Sh2 @Sh2>> /XObject<</Img9 @Img9 /Fm4 @Fm4>>>>"
    );
    assert_eq!(
        c.inline_pdf_resource_dict(false),
        "<</ExtGState<</GS1 \\csname svgobj@GS1\\endcsname\\space 0 R>> /Shading<</Sh2 \\csname svgobj@Sh2\\endcsname\\space 0 R>> /XObject<</Img9 \\csname svgobj@Img9\\endcsname\\space 0 R /Fm4 \\csname svgobj@Fm4\\endcsname\\space 0 R>>>>"
    );
}

#[test]
fn group_forms_carry_the_resources_registered_before_them() {
    let mut c = converter();
    assert_eq!(c.ensure_transparency_form("t".to_string(), "0 0 10 10", vec![0x71]), "Fm1");
    let e = &c.resources.form_entries()[0];
    assert_eq!(
        e.pdf_dict,
        "<</Type/XObject/Subtype/Form/BBox [0 0 10 10] /Group <</S /Transparency /CS /DeviceRGB>> /Resources <<>> /Filter [/ASCIIHexDecode]>>"
    );
    assert_eq!(
        e.dvi_dict,
        "<</Type/XObject/Subtype/Form/BBox [0 0 10 10] /Group <</S /Transparency /CS /DeviceRGB>> /Resources <<>> /Filter /ASCIIHexDecode>>"
    );
    assert_eq!(e.stream, vec![0x71]);
    assert_eq!(c.ensure_spread_alpha_form("a".to_string(), "1 2 3 4", Vec::new()), "Fm2");
    let e = &c.resources.form_entries()[1];
    assert_eq!(
        e.dvi_dict,
        "<</Type/XObject/Subtype/Form/BBox [1 2 3 4] /Group <</S /Transparency /CS /DeviceGray>> /Resources <</XObject<</Fm1 @Fm1>>>> /Filter /ASCIIHexDecode>>"
    );
}
