use svg2tex_rs::converter::filter_graph::{CompositeOperator, FilterForms, FilterRect, FloodPaint};
use svg2tex_rs::converter::filter_steps::{
    copy_value, FilterInput, FilterStep, FilterValue, NamedResult, StepOutcome,
};
use svg2tex_rs::{PdfConverter, TexEngine, TexFormat};

const XYWH: &str = "0.000000 0.000000 10.000000 10.000000";
const KEY: &str = "0.000000/0.000000/10.000000/10.000000";

fn rect() -> FilterRect {
    FilterRect { xywh: XYWH.to_string(), key: KEY.to_string(), bbox: XYWH.to_string() }
}

fn converter() -> PdfConverter {
    PdfConverter::new(false, TexEngine::PdfTeX, TexFormat::Standalone)
}

fn value(form: &str, alpha: &str, bbox: u32) -> FilterValue<u32> {
    FilterValue { forms: FilterForms { form_name: form.to_string(), alpha_form_name: alpha.to_string() }, bbox }
}

fn named(name: &str, form: &str, bbox: u32) -> NamedResult<u32> {
    NamedResult { name: name.to_string(), value: value(form, form, bbox) }
}

fn reference(name: &str) -> FilterInput {
    FilterInput::Reference(name.to_string())
}

fn expect_value(r: Result<StepOutcome<u32>, String>) -> FilterValue<u32> {
    match r {
        Ok(StepOutcome::Value(v)) => v,
        Ok(StepOutcome::TileOf(_)) => panic!("a tile outcome"),
        Err(e) => panic!("an error: {e}"),
    }
}

#[test]
fn source_graphic_resolves_to_the_source_unchanged() {
    let mut c = converter();
    let source = value("Src", "SrcA", 7);
    let r = c.resolve_filter_input(&FilterInput::SourceGraphic, &source, &Vec::new(), &rect()).unwrap();
    assert_eq!(r.forms.form_name, "Src");
    assert_eq!(r.forms.alpha_form_name, "SrcA");
    assert_eq!(r.bbox, 7);
    assert_eq!(c.resources.form_entries().len(), 0);
}

#[test]
fn source_alpha_resolves_to_a_black_shape_of_the_source_alpha() {
    let mut c = converter();
    let source = value("Src", "SrcA", 7);
    let r = c.resolve_filter_input(&FilterInput::SourceAlpha, &source, &Vec::new(), &rect()).unwrap();
    assert_ne!(r.forms.form_name, "Src");
    assert_eq!(r.forms.alpha_form_name, "SrcA");
    assert_eq!(r.bbox, 7);
    assert!(!c.resources.form_entries().is_empty());
    let again = c.resolve_filter_input(&FilterInput::SourceAlpha, &source, &Vec::new(), &rect()).unwrap();
    assert_eq!(again.forms.form_name, r.forms.form_name);
}

#[test]
fn a_reference_takes_the_last_result_of_its_name() {
    let mut c = converter();
    let source = value("Src", "SrcA", 0);
    let results = vec![named("a", "Fm1", 1), named("b", "Fm2", 2), named("a", "Fm3", 3)];
    let r = c.resolve_filter_input(&reference("a"), &source, &results, &rect()).unwrap();
    assert_eq!(r.forms.form_name, "Fm3");
    assert_eq!(r.bbox, 3);
    let r = c.resolve_filter_input(&reference("b"), &source, &results, &rect()).unwrap();
    assert_eq!(r.forms.form_name, "Fm2");
}

#[test]
fn a_reference_to_no_earlier_result_is_an_error() {
    let mut c = converter();
    let source = value("Src", "SrcA", 0);
    let results = vec![named("a", "Fm1", 1)];
    let r = c.resolve_filter_input(&reference("missing"), &source, &results, &rect());
    assert_eq!(r.err().unwrap(), "Filter input 'missing' does not reference an earlier result");
}

#[test]
fn flood_step_gives_a_single_form_with_the_callers_region() {
    let mut c = converter();
    let paint = FloodPaint {
        key: "0/0/255/1.000000".to_string(),
        rgb: "0.000000 0.000000 1.000000".to_string(),
        opacity: "1.000000".to_string(),
        translucent: false,
    };
    let step = FilterStep::Flood { paint };
    let v = expect_value(c.apply_filter_step(&step, &rect(), 42, &rect(), &value("Src", "Src", 0), &Vec::new()));
    assert_eq!(v.forms.form_name, v.forms.alpha_form_name);
    assert_eq!(v.bbox, 42);
}

#[test]
fn merge_step_stacks_its_resolved_inputs() {
    let mut c = converter();
    let results = vec![named("a", "Fa", 1), named("b", "Fb", 2)];
    let step = FilterStep::Merge { inputs: vec![reference("a"), reference("b"), FilterInput::SourceGraphic] };
    let v = expect_value(c.apply_filter_step(&step, &rect(), 9, &rect(), &value("Src", "SrcA", 0), &results));
    assert_eq!(v.bbox, 9);
    let entries = c.resources.form_entries();
    assert_eq!(entries.len(), 1);
    assert_eq!(entries[0].key, format!("filter/merge/Fa,Fb,Src/{KEY}"));
    assert_eq!(v.forms.form_name, "Fm1");
}

#[test]
fn merge_step_stops_at_the_first_missing_reference() {
    let mut c = converter();
    let step = FilterStep::Merge { inputs: vec![FilterInput::SourceGraphic, reference("x"), reference("y")] };
    let r = c.apply_filter_step(&step, &rect(), 9, &rect(), &value("Src", "SrcA", 0), &Vec::new());
    assert_eq!(r.err().unwrap(), "Filter input 'x' does not reference an earlier result");
    assert_eq!(c.resources.form_entries().len(), 0);
}

#[test]
fn tile_step_hands_back_its_resolved_input() {
    let mut c = converter();
    let results = vec![named("t", "Ft", 5)];
    let step = FilterStep::Tile { input: reference("t") };
    match c.apply_filter_step(&step, &rect(), 9, &rect(), &value("Src", "SrcA", 0), &results) {
        Ok(StepOutcome::TileOf(v)) => {
            assert_eq!(v.forms.form_name, "Ft");
            assert_eq!(v.bbox, 5);
        }
        _ => panic!("expected the tile's input"),
    }
}

#[test]
fn unsupported_primitives_are_errors_with_their_description() {
    let mut c = converter();
    let source = value("Src", "SrcA", 0);
    let step = FilterStep::OtherColorMatrix { description: "Saturate(1.0)".to_string() };
    let r = c.apply_filter_step(&step, &rect(), 0, &rect(), &source, &Vec::new());
    assert_eq!(r.err().unwrap(), "Unsupported native feColorMatrix variant: Saturate(1.0)");
    let step = FilterStep::Other { description: "Turbulence".to_string() };
    let r = c.apply_filter_step(&step, &rect(), 0, &rect(), &source, &Vec::new());
    assert_eq!(r.err().unwrap(), "Unsupported native filter primitive: Turbulence");
}

#[test]
fn arithmetic_composite_is_refused_after_its_inputs_resolve() {
    let mut c = converter();
    let source = value("Src", "SrcA", 0);
    let step = FilterStep::Composite {
        source: FilterInput::SourceGraphic,
        backdrop: FilterInput::SourceGraphic,
        operator: CompositeOperator::Arithmetic,
    };
    let r = c.apply_filter_step(&step, &rect(), 0, &rect(), &source, &Vec::new());
    assert_eq!(r.err().unwrap(), "feComposite operator=\"arithmetic\" is not supported natively");
    let step = FilterStep::Composite {
        source: reference("nope"),
        backdrop: FilterInput::SourceGraphic,
        operator: CompositeOperator::Arithmetic,
    };
    let r = c.apply_filter_step(&step, &rect(), 0, &rect(), &source, &Vec::new());
    assert_eq!(r.err().unwrap(), "Filter input 'nope' does not reference an earlier result");
}

#[test]
fn copies_of_values_are_equal() {
    let v = value("A", "B", 3);
    let w = copy_value(&v);
    assert_eq!(w.forms.form_name, "A");
    assert_eq!(w.forms.alpha_form_name, "B");
    assert_eq!(w.bbox, 3);
}
