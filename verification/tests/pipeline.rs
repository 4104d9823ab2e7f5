use svg2tex_rs::pipeline::{
    after_failed_conversion, check_font_policy, check_unsupported_features, report_text_fonts, system_fonts_warning,
};
use svg2tex_rs::validation::TextFontRequirement;

fn requirement(family: &str, weight: u16) -> TextFontRequirement {
    TextFontRequirement {
        families: vec![family.to_string()],
        style: "italic".to_string(),
        stretch: "normal".to_string(),
        weight,
    }
}

#[test]
fn strict_fonts_needs_no_system_fonts() {
    assert_eq!(
        check_font_policy(true, false, &Vec::new()),
        Err("--strict-fonts requires --no-system-fonts so text rendering does not depend on host font discovery.".to_string())
    );
}

#[test]
fn strict_fonts_refuses_missing_fonts() {
    let missing = vec!["Arial".to_string(), "Zapfino".to_string()];
    assert_eq!(
        check_font_policy(true, true, &missing),
        Err("Missing named fonts required by SVG text: Arial, Zapfino. Load them with --font-file/--font-dir or change the default font families.".to_string())
    );
    assert_eq!(check_font_policy(true, true, &Vec::new()), Ok(None));
}

#[test]
fn missing_fonts_only_warn_without_strict_fonts() {
    let missing = vec!["Arial".to_string()];
    assert_eq!(
        check_font_policy(false, false, &missing),
        Ok(Some("Warning: Some named fonts requested by SVG text were not found in the loaded font database: Arial. Fallback shaping may change layout.".to_string()))
    );
    assert_eq!(check_font_policy(false, true, &Vec::new()), Ok(None));
}

#[test]
fn unsupported_features_fail_only_under_strict() {
    let features = vec!["filters".to_string(), "fill radial gradients".to_string()];
    assert_eq!(
        check_unsupported_features(&features, true),
        Err("Unsupported SVG features detected: filters, fill radial gradients. Re-run without --strict to rasterize only the unsupported subtrees.".to_string())
    );
    assert_eq!(
        check_unsupported_features(&features, false),
        Ok(Some("Info: Hybrid rendering enabled for unsupported SVG features: filters, fill radial gradients".to_string()))
    );
    assert_eq!(check_unsupported_features(&Vec::new(), true), Ok(None));
}

#[test]
fn system_font_warning_lists_requests() {
    assert_eq!(
        system_fonts_warning(&Vec::new()),
        "Warning: Text conversion currently depends on system fonts. Requested text fonts: (none). Use --no-system-fonts together with --font-file/--font-dir and explicit default font families for reproducible output."
    );
    let reqs = vec![requirement("named:A", 400), requirement("generic:serif", 700)];
    assert_eq!(
        system_fonts_warning(&reqs),
        "Warning: Text conversion currently depends on system fonts. Requested text fonts: families=[named:A], style=italic, stretch=normal, weight=400; families=[generic:serif], style=italic, stretch=normal, weight=700. Use --no-system-fonts together with --font-file/--font-dir and explicit default font families for reproducible output."
    );
}

#[test]
fn font_report_lines() {
    assert_eq!(report_text_fonts(&Vec::new()), vec!["Info: No text font requirements were detected.".to_string()]);
    assert_eq!(
        report_text_fonts(&vec![requirement("named:A", 400)]),
        vec![
            "Text font requirements:".to_string(),
            "  - families=[named:A], style=italic, stretch=normal, weight=400".to_string()
        ]
    );
}

#[test]
fn a_failed_conversion_falls_back_to_rasterizing_only_with_unsupported_features() {
    let features = vec!["filters".to_string()];
    assert_eq!(
        after_failed_conversion("boom".to_string(), &features).unwrap(),
        "Info: Hybrid rendering failed (boom); falling back to full-document rasterization."
    );
    assert_eq!(after_failed_conversion("boom".to_string(), &Vec::new()).err().unwrap(), "boom");
}
