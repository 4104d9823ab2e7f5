use svg2tex_rs::converter::filter::{
    filter_feature_names, filter_is_natively_supported, filters_are_natively_supported,
    filters_are_supported, primitive_is_natively_supported, primitive_name, push_unique,
    FilterPrimitiveKind,
};
use svg2tex_rs::converter::paint::{
    blend_mode_name, gradient_is_natively_supported, spread_segment_reversed, BlendMode, SpreadMethod,
};

#[test]
fn native_primitives() {
    assert!(primitive_is_natively_supported(FilterPrimitiveKind::Offset));
    assert!(primitive_is_natively_supported(FilterPrimitiveKind::Flood));
    assert!(primitive_is_natively_supported(FilterPrimitiveKind::Composite { arithmetic: false }));
    assert!(!primitive_is_natively_supported(FilterPrimitiveKind::Composite { arithmetic: true }));
    assert!(primitive_is_natively_supported(FilterPrimitiveKind::ColorMatrix { luminance_to_alpha: true }));
    assert!(!primitive_is_natively_supported(FilterPrimitiveKind::ColorMatrix { luminance_to_alpha: false }));
    assert!(primitive_is_natively_supported(FilterPrimitiveKind::ComponentTransfer { alpha_is_identity: true }));
    assert!(!primitive_is_natively_supported(FilterPrimitiveKind::GaussianBlur));
    assert!(!primitive_is_natively_supported(FilterPrimitiveKind::Turbulence));
}

#[test]
fn filter_support_needs_every_primitive() {
    let native = vec![FilterPrimitiveKind::Offset, FilterPrimitiveKind::Merge];
    let blurred = vec![FilterPrimitiveKind::Flood, FilterPrimitiveKind::GaussianBlur];
    assert!(filter_is_natively_supported(&native));
    assert!(!filter_is_natively_supported(&blurred));
    assert!(filter_is_natively_supported(&Vec::new()));
    assert!(filters_are_natively_supported(&vec![native.clone()]));
    assert!(!filters_are_natively_supported(&vec![native, blurred]));
    assert!(filters_are_supported());
}

#[test]
fn feature_names_list_each_primitive_once() {
    let filters = vec![
        vec![FilterPrimitiveKind::GaussianBlur, FilterPrimitiveKind::Offset],
        vec![FilterPrimitiveKind::Offset, FilterPrimitiveKind::Composite { arithmetic: true }],
    ];
    assert_eq!(filter_feature_names(&filters), vec!["feGaussianBlur", "feOffset", "feComposite"]);
    assert_eq!(primitive_name(FilterPrimitiveKind::DropShadow), "feDropShadow");
    let mut list = vec!["a".to_string()];
    push_unique(&mut list, "a");
    push_unique(&mut list, "b");
    assert_eq!(list, vec!["a", "b"]);
}

#[test]
fn blend_mode_pdf_names() {
    assert_eq!(blend_mode_name(BlendMode::Normal), "Normal");
    assert_eq!(blend_mode_name(BlendMode::ColorDodge), "ColorDodge");
    assert_eq!(blend_mode_name(BlendMode::SoftLight), "SoftLight");
    assert_eq!(blend_mode_name(BlendMode::Luminosity), "Luminosity");
}

#[test]
fn gradients_are_drawn_natively_and_reflect_alternates() {
    assert!(gradient_is_natively_supported(SpreadMethod::Pad));
    assert!(gradient_is_natively_supported(SpreadMethod::Reflect));
    assert!(gradient_is_natively_supported(SpreadMethod::Repeat));
    assert!(!spread_segment_reversed(SpreadMethod::Reflect, 0));
    assert!(spread_segment_reversed(SpreadMethod::Reflect, 1));
    assert!(spread_segment_reversed(SpreadMethod::Reflect, -1));
    assert!(!spread_segment_reversed(SpreadMethod::Reflect, -2));
    assert!(spread_segment_reversed(SpreadMethod::Reflect, i32::MIN + 1));
    assert!(!spread_segment_reversed(SpreadMethod::Reflect, i32::MIN));
    assert!(!spread_segment_reversed(SpreadMethod::Repeat, 1));
    assert!(!spread_segment_reversed(SpreadMethod::Pad, 3));
}
