use svg2tex_rs::converter::filter_graph::{
    CompositeOperator, FilterForms, FilterRect, FloodPaint, TransferFunctions,
};
use svg2tex_rs::converter::paint::BlendMode;
use svg2tex_rs::{PdfConverter, TexEngine, TexFormat};

const XYWH: &str = "0.000000 0.000000 10.000000 10.000000";
const KEY: &str = "0.000000/0.000000/10.000000/10.000000";

fn rect() -> FilterRect {
    FilterRect { xywh: XYWH.to_string(), key: KEY.to_string(), bbox: XYWH.to_string() }
}

fn converter() -> PdfConverter {
    PdfConverter::new(false, TexEngine::PdfTeX, TexFormat::Standalone)
}

fn forms(form: &str, alpha: &str) -> FilterForms {
    FilterForms { form_name: form.to_string(), alpha_form_name: alpha.to_string() }
}

fn stream_text(c: &PdfConverter, i: usize) -> String {
    String::from_utf8(c.resources.form_entries()[i].stream.clone()).unwrap()
}

#[test]
fn clipped_forms_are_interned_once() {
    let mut c = converter();
    assert_eq!(c.ensure_clipped_form("Fm9", &rect()), "Fm1");
    assert_eq!(c.ensure_clipped_form("Fm9", &rect()), "Fm1");
    assert_eq!(c.resources.form_entries().len(), 1);
    let e = &c.resources.form_entries()[0];
    assert_eq!(e.key, format!("filter/clipped/Fm9/{KEY}"));
    assert_eq!(
        e.pdf_dict,
        format!("<</Type/XObject/Subtype/Form/BBox [{XYWH}] /Group <</S /Transparency /CS /DeviceRGB>> /Resources <<>> /Filter [/ASCIIHexDecode]>>")
    );
    assert_eq!(stream_text(&c, 0), format!("q {XYWH} re W n /Fm9 Do Q"));
}

#[test]
fn merge_and_offset_forms() {
    let mut c = converter();
    let inputs = vec!["A".to_string(), "B".to_string()];
    assert_eq!(c.ensure_merge_form(&rect(), &inputs), "Fm1");
    assert_eq!(c.resources.form_entries()[0].key, format!("filter/merge/A,B/{KEY}"));
    assert_eq!(stream_text(&c, 0), format!("q {XYWH} re W n /A Do /B Do Q"));
    assert_eq!(c.ensure_offset_form("X", &rect(), "1.000000", "-2.500000"), "Fm2");
    assert_eq!(c.resources.form_entries()[1].key, format!("filter/offset/X/1.000000/-2.500000/{KEY}"));
    assert_eq!(stream_text(&c, 1), format!("q {XYWH} re W n 1.000000 -2.500000 cm /X Do Q"));
}

#[test]
fn translucent_flood_goes_through_an_opacity_state() {
    let mut c = converter();
    let paint = FloodPaint {
        key: "255/0/0/0.500000".to_string(),
        rgb: "1.000000 0.000000 0.000000".to_string(),
        opacity: "0.500000".to_string(),
        translucent: true,
    };
    assert_eq!(c.ensure_flood_form(&rect(), &paint), "Fm2");
    assert_eq!(c.resources.ext_gstate_entries()[0].key, "/ca 0.500000");
    assert_eq!(c.resources.form_entries()[0].key, format!("filter/flood/255/0/0/0.500000/{KEY}"));
    assert_eq!(stream_text(&c, 0), format!("q /GS1 gs 1.000000 0.000000 0.000000 rg {XYWH} re f Q"));
    assert_eq!(c.ensure_flood_form(&rect(), &paint), "Fm2");
    assert_eq!(c.resources.next_id(), 3);
}

#[test]
fn blend_form_uses_a_blend_mode_state() {
    let mut c = converter();
    assert_eq!(c.ensure_blend_form(&rect(), "B", "S", BlendMode::Multiply), "Fm2");
    let gs = &c.resources.ext_gstate_entries()[0];
    assert_eq!(gs.key, "/BM/Multiply");
    assert_eq!(gs.pdf_dict, "<</Type/ExtGState /BM/Multiply>>");
    assert_eq!(c.resources.form_entries()[0].key, format!("filter/blend/B/S/Multiply/{KEY}"));
    assert_eq!(stream_text(&c, 0), format!("q {XYWH} re W n /B Do /GS1 gs /S Do Q"));
}

#[test]
fn inverted_masks_use_the_invert_function() {
    let mut c = converter();
    assert_eq!(c.ensure_masked_form(&rect(), "Fm7", "Fm8", true), "Fm3");
    assert_eq!(c.resources.function_entries()[0].name, "Fn1");
    assert_eq!(c.resources.ext_gstate_entries()[0].key, "soft-mask/Alpha/Fm8/Fn1");
    assert_eq!(c.resources.form_entries()[0].key, format!("filter/masked/Fm7/Fm8/true/{KEY}"));
    assert_eq!(stream_text(&c, 0), format!("q {XYWH} re W n /GS2 gs /Fm7 Do Q"));
    assert_eq!(c.ensure_masked_form(&rect(), "Fm7", "Fm8", false), "Fm5");
    assert_eq!(c.resources.ext_gstate_entries()[1].key, "soft-mask/Alpha/Fm8/identity");
    assert_eq!(c.ensure_masked_form(&rect(), "Fm7", "Fm8", true), "Fm3");
}

#[test]
fn source_alpha_and_luminance_use_black_floods() {
    let mut c = converter();
    assert_eq!(c.ensure_source_alpha_form("Fm9", &rect()), "Fm3");
    assert_eq!(c.resources.form_entries()[0].key, format!("filter/flood/0/0/0/1.000000/{KEY}"));
    assert_eq!(stream_text(&c, 0), format!("q 0.000000 0.000000 0.000000 rg {XYWH} re f Q"));
    assert_eq!(c.resources.ext_gstate_entries()[0].key, "soft-mask/Alpha/Fm9/identity");
    assert_eq!(c.resources.form_entries()[1].key, "filter/source-alpha/Fm9");
    assert_eq!(stream_text(&c, 1), "q /GS2 gs /Fm1 Do Q");

    let mut d = converter();
    assert_eq!(d.ensure_luminance_to_alpha_form(&rect(), "Fm9"), "Fm3");
    assert_eq!(d.resources.ext_gstate_entries()[0].key, "soft-mask/Luminosity/Fm9/identity");
    assert_eq!(d.resources.form_entries()[1].key, format!("filter/color-matrix/luminance-to-alpha/Fm9/{KEY}"));
    assert_eq!(stream_text(&d, 1), format!("q {XYWH} re W n /GS1 gs /Fm2 Do Q"));
}

fn transfer() -> TransferFunctions {
    TransferFunctions {
        r_key: "linear(2.000000,0.000000)".to_string(),
        g_key: "identity".to_string(),
        b_key: "identity".to_string(),
        r_dict: "<<R>>".to_string(),
        g_dict: "<<G>>".to_string(),
        b_dict: "<<B>>".to_string(),
    }
}

#[test]
fn component_transfer_of_colour_channels() {
    let mut c = converter();
    let out = c
        .ensure_component_transfer_filter_value(&rect(), &forms("In", "InA"), &transfer(), true, false)
        .unwrap();
    assert_eq!(out.form_name, "Fm2");
    assert_eq!(out.alpha_form_name, "Fm3");
    let gs = &c.resources.ext_gstate_entries()[0];
    assert_eq!(gs.key, "filter/component-transfer-gstate/linear(2.000000,0.000000)/identity/identity");
    assert_eq!(gs.pdf_dict, "<</Type/ExtGState /TR2 [<<R>> <<G>> <<B>>]>>");
    assert_eq!(
        c.resources.form_entries()[0].key,
        format!("filter/component-transfer/In/linear(2.000000,0.000000)/identity/identity/{KEY}")
    );
    assert_eq!(c.resources.form_entries()[1].key, format!("filter/clipped/InA/{KEY}"));
}

#[test]
fn alpha_transfer_is_refused() {
    let mut c = converter();
    let r = c.ensure_component_transfer_filter_value(&rect(), &forms("In", "InA"), &transfer(), false, true);
    assert_eq!(r.err(), Some("feComponentTransfer with alpha transfer still requires raster fallback".to_string()));
    assert_eq!(c.resources.next_id(), 1);
    let ok = c
        .ensure_component_transfer_filter_value(&rect(), &forms("In", "In"), &transfer(), true, true)
        .unwrap();
    assert_eq!((ok.form_name.as_str(), ok.alpha_form_name.as_str()), ("Fm1", "Fm1"));
}

#[test]
fn composite_atop_merges_two_masked_forms() {
    let mut c = converter();
    let out = c
        .ensure_composite_filter_value(&rect(), &forms("A", "a"), &forms("B", "b"), CompositeOperator::Atop)
        .unwrap();
    assert_eq!(out.form_name, "Fm6");
    assert_eq!(out.alpha_form_name, "Fm6");
    assert_eq!(c.resources.form_entries()[0].key, format!("filter/masked/A/b/false/{KEY}"));
    assert_eq!(c.resources.form_entries()[1].key, format!("filter/masked/B/a/true/{KEY}"));
    assert_eq!(c.resources.form_entries()[2].key, format!("filter/merge/Fm5,Fm2/{KEY}"));
    assert_eq!(stream_text(&c, 2), format!("q {XYWH} re W n /Fm5 Do /Fm2 Do Q"));
}

#[test]
fn composite_over_in_out_xor() {
    let mut c = converter();
    let over = c
        .ensure_composite_filter_value(&rect(), &forms("A", "a"), &forms("B", "b"), CompositeOperator::Over)
        .unwrap();
    assert_eq!(over.form_name, "Fm1");
    assert_eq!(c.resources.form_entries()[0].key, format!("filter/merge/B,A/{KEY}"));
    let inside = c
        .ensure_composite_filter_value(&rect(), &forms("A", "a"), &forms("B", "b"), CompositeOperator::In)
        .unwrap();
    assert_eq!(inside.form_name, "Fm3");
    let outside = c
        .ensure_composite_filter_value(&rect(), &forms("A", "a"), &forms("B", "b"), CompositeOperator::Out)
        .unwrap();
    assert_eq!(outside.form_name, "Fm6");
    let xor = c
        .ensure_composite_filter_value(&rect(), &forms("A", "a"), &forms("B", "b"), CompositeOperator::Xor)
        .unwrap();
    // "A masked out by b" exists already; only "B masked out by a" and the merge are new.
    assert_eq!(xor.form_name, "Fm9");
    assert_eq!(c.resources.form_entries().last().unwrap().key, format!("filter/merge/Fm8,Fm6/{KEY}"));
}

#[test]
fn arithmetic_composite_is_refused() {
    let mut c = converter();
    let r = c.ensure_composite_filter_value(&rect(), &forms("A", "a"), &forms("B", "b"), CompositeOperator::Arithmetic);
    assert_eq!(r.err(), Some("feComposite operator=\"arithmetic\" is not supported natively".to_string()));
    assert_eq!(c.resources.next_id(), 1);
}

#[test]
fn clipped_filter_values_share_a_form_when_alpha_is_colour() {
    let mut c = converter();
    let same = c.ensure_clipped_filter_value(&forms("X", "X"), &rect());
    assert_eq!((same.form_name.as_str(), same.alpha_form_name.as_str()), ("Fm1", "Fm1"));
    let apart = c.ensure_clipped_filter_value(&forms("X", "Y"), &rect());
    assert_eq!((apart.form_name.as_str(), apart.alpha_form_name.as_str()), ("Fm1", "Fm2"));
}
