use svg2tex_rs::converter::paint::SpreadMethod;
use svg2tex_rs::validation::{
    add_text_font_requirement, analyze_tree, node_requires_raster, node_unsupported_features,
    push_feature, push_feature_name, FontFamily, FontStretch, FontStyle, PaintKind, SvgNode,
    TextFontRequirement, TreeAnalysis,
};
use usvg::{Options, Tree};

fn parse(svg: &str) -> Tree {
    Tree::from_data(svg.as_bytes(), &Options::default()).unwrap()
}

fn spread(method: usvg::SpreadMethod) -> SpreadMethod {
    match method {
        usvg::SpreadMethod::Pad => SpreadMethod::Pad,
        usvg::SpreadMethod::Reflect => SpreadMethod::Reflect,
        usvg::SpreadMethod::Repeat => SpreadMethod::Repeat,
    }
}

fn paint(p: &usvg::Paint) -> PaintKind {
    match p {
        usvg::Paint::Color(_) => PaintKind::Color,
        usvg::Paint::LinearGradient(g) => PaintKind::LinearGradient(spread(g.spread_method())),
        usvg::Paint::RadialGradient(g) => PaintKind::RadialGradient(spread(g.spread_method())),
        usvg::Paint::Pattern(_) => PaintKind::Pattern,
    }
}

fn family(f: &usvg::FontFamily) -> FontFamily {
    match f {
        usvg::FontFamily::Named(name) => FontFamily::Named(name.clone()),
        usvg::FontFamily::Serif => FontFamily::Serif,
        usvg::FontFamily::SansSerif => FontFamily::SansSerif,
        usvg::FontFamily::Cursive => FontFamily::Cursive,
        usvg::FontFamily::Fantasy => FontFamily::Fantasy,
        usvg::FontFamily::Monospace => FontFamily::Monospace,
    }
}

fn style(s: usvg::FontStyle) -> FontStyle {
    match s {
        usvg::FontStyle::Normal => FontStyle::Normal,
        usvg::FontStyle::Italic => FontStyle::Italic,
        usvg::FontStyle::Oblique => FontStyle::Oblique,
    }
}

fn stretch(s: usvg::FontStretch) -> FontStretch {
    match s {
        usvg::FontStretch::UltraCondensed => FontStretch::UltraCondensed,
        usvg::FontStretch::ExtraCondensed => FontStretch::ExtraCondensed,
        usvg::FontStretch::Condensed => FontStretch::Condensed,
        usvg::FontStretch::SemiCondensed => FontStretch::SemiCondensed,
        usvg::FontStretch::Normal => FontStretch::Normal,
        usvg::FontStretch::SemiExpanded => FontStretch::SemiExpanded,
        usvg::FontStretch::Expanded => FontStretch::Expanded,
        usvg::FontStretch::ExtraExpanded => FontStretch::ExtraExpanded,
        usvg::FontStretch::UltraExpanded => FontStretch::UltraExpanded,
    }
}

fn node(n: &usvg::Node) -> SvgNode {
    match n {
        usvg::Node::Path(p) => SvgNode::Path {
            fill: p.fill().map(|f| paint(f.paint())),
            stroke: p.stroke().map(|s| paint(s.paint())),
        },
        usvg::Node::Group(g) => SvgNode::Group {
            has_filters: !g.filters().is_empty(),
            children: g.children().iter().map(node).collect(),
        },
        usvg::Node::Image(_) => SvgNode::Image,
        usvg::Node::Text(t) => {
            let mut span_fonts = Vec::new();
            for chunk in t.chunks() {
                for span in chunk.spans() {
                    let font = span.font();
                    let families: Vec<FontFamily> = font.families().iter().map(family).collect();
                    span_fonts.push(TextFontRequirement::from_font(
                        &families,
                        style(font.style()),
                        stretch(font.stretch()),
                        font.weight(),
                    ));
                }
            }
            SvgNode::Text {
                span_fonts,
                flattened: t.flattened().children().iter().map(node).collect(),
            }
        }
    }
}

fn nodes(tree: &Tree) -> Vec<SvgNode> {
    tree.root().children().iter().map(node).collect()
}

fn first(tree: &Tree) -> SvgNode {
    node(&tree.root().children()[0])
}

#[test]
fn accepts_pad_linear_gradient_with_uniform_opacity() {
    let tree = parse(
        r##"<svg xmlns="http://www.w3.org/2000/svg" viewBox="0 0 10 10">
<defs><linearGradient id="g"><stop offset="0" stop-color="#000"/><stop offset="1" stop-color="#fff"/></linearGradient></defs>
<rect width="10" height="10" fill="url(#g)"/>
</svg>"##,
    );

    let analysis = analyze_tree(&nodes(&tree), false);
    assert!(analysis.unsupported_features.is_empty());
}

#[test]
fn supports_filters_via_native_or_raster_path() {
    let tree = parse(
        r##"<svg xmlns="http://www.w3.org/2000/svg" viewBox="0 0 10 10">
<defs><filter id="f"><feGaussianBlur stdDeviation="1"/></filter></defs>
<g filter="url(#f)"><rect width="10" height="10" fill="#000"/></g>
</svg>"##,
    );

    assert!(!node_requires_raster(&first(&tree), false));
}

#[test]
fn accepts_native_filter_graph() {
    let tree = parse(
        r##"<svg xmlns="http://www.w3.org/2000/svg" viewBox="0 0 10 10">
<defs>
  <filter id="f" x="0" y="0" width="10" height="10" filterUnits="userSpaceOnUse">
    <feOffset in="SourceGraphic" dx="1" dy="0" result="offset"/>
    <feComposite in="offset" in2="SourceGraphic" operator="out" result="shadow-shape"/>
    <feFlood flood-color="#00f" flood-opacity="0.5" result="flood"/>
    <feComposite in="flood" in2="shadow-shape" operator="in" result="shadow"/>
    <feMerge>
      <feMergeNode in="shadow"/>
      <feMergeNode in="SourceGraphic"/>
    </feMerge>
  </filter>
</defs>
<g filter="url(#f)"><rect width="8" height="8" fill="#f00"/></g>
</svg>"##,
    );

    assert!(!node_requires_raster(&first(&tree), false));
}

#[test]
fn accepts_repeat_and_reflect_gradients() {
    let tree = parse(
        r##"<svg xmlns="http://www.w3.org/2000/svg" viewBox="0 0 10 10">
<defs>
  <linearGradient id="l" x1="0" y1="0" x2="2" y2="0" spreadMethod="repeat">
    <stop offset="0" stop-color="#000"/>
    <stop offset="1" stop-color="#fff"/>
  </linearGradient>
  <radialGradient id="r" cx="3" cy="3" r="2" spreadMethod="reflect">
    <stop offset="0" stop-color="#fff"/>
    <stop offset="1" stop-color="#000"/>
  </radialGradient>
</defs>
<rect width="5" height="5" fill="url(#l)"/>
<rect x="5" width="5" height="5" fill="url(#r)"/>
</svg>"##,
    );

    let analysis = analyze_tree(&nodes(&tree), false);
    assert!(analysis.unsupported_features.is_empty());
}

#[test]
fn accepts_embedded_svg_images_when_embedding() {
    let tree = parse(
        r##"<svg xmlns="http://www.w3.org/2000/svg" viewBox="0 0 10 10">
<image width="5" height="5" href="data:image/svg+xml,%3Csvg xmlns='http://www.w3.org/2000/svg' width='5' height='5'%3E%3Crect width='5' height='5' fill='%23f00'/%3E%3C/svg%3E"/>
</svg>"##,
    );

    assert!(!node_requires_raster(&first(&tree), true));
}

#[test]
fn mask_is_supported_natively() {
    let tree = parse(
        r##"<svg xmlns="http://www.w3.org/2000/svg" viewBox="0 0 10 10">
<defs>
  <mask id="m" maskUnits="userSpaceOnUse">
    <rect width="10" height="10" fill="white"/>
  </mask>
</defs>
<g mask="url(#m)"><rect width="10" height="10" fill="#000"/></g>
</svg>"##,
    );

    assert!(!node_requires_raster(&first(&tree), false));
}

#[test]
fn supported_rect_does_not_require_raster() {
    let tree = parse(
        r##"<svg xmlns="http://www.w3.org/2000/svg" viewBox="0 0 10 10">
<rect x="1" y="2" width="3" height="4" fill="#f00"/>
</svg>"##,
    );

    assert!(!node_requires_raster(&first(&tree), false));
}

#[test]
fn variable_opacity_gradient_is_supported_natively() {
    let tree = parse(
        r##"<svg xmlns="http://www.w3.org/2000/svg" viewBox="0 0 10 10">
<defs><linearGradient id="g"><stop offset="0" stop-color="#000" stop-opacity="1"/><stop offset="1" stop-color="#fff" stop-opacity="0.5"/></linearGradient></defs>
<rect width="10" height="10" fill="url(#g)"/>
</svg>"##,
    );

    assert!(!node_requires_raster(&first(&tree), false));
}

fn requirement(families: &[&str], weight: u16) -> TextFontRequirement {
    TextFontRequirement {
        families: families.iter().map(|f| f.to_string()).collect(),
        style: "normal".to_string(),
        stretch: "normal".to_string(),
        weight,
    }
}

#[test]
fn summary_lists_families_style_stretch_and_weight() {
    let r = requirement(&["named:Inter", "generic:sans-serif"], 700);
    assert_eq!(
        r.summary(),
        "families=[named:Inter, generic:sans-serif], style=normal, stretch=normal, weight=700"
    );
    let empty = requirement(&[], 400);
    assert_eq!(empty.summary(), "families=[], style=normal, stretch=normal, weight=400");
}

#[test]
fn named_families_strip_the_prefix_and_skip_generic_ones() {
    let r = requirement(&["named:Inter", "generic:serif", "named:Noto Sans", "named:"], 400);
    assert_eq!(r.named_families(), vec!["Inter".to_string(), "Noto Sans".to_string(), String::new()]);
}

#[test]
fn from_font_labels_each_family() {
    let families = vec![
        FontFamily::Named("Fira Code".to_string()),
        FontFamily::Serif,
        FontFamily::SansSerif,
        FontFamily::Cursive,
        FontFamily::Fantasy,
        FontFamily::Monospace,
    ];
    let r = TextFontRequirement::from_font(&families, FontStyle::Italic, FontStretch::SemiCondensed, 300);
    assert_eq!(
        r.families,
        vec![
            "named:Fira Code",
            "generic:serif",
            "generic:sans-serif",
            "generic:cursive",
            "generic:fantasy",
            "generic:monospace"
        ]
    );
    assert_eq!(r.style, "italic");
    assert_eq!(r.stretch, "semicondensed");
    assert_eq!(r.weight, 300);
}

#[test]
fn missing_named_families_are_sorted_unique_and_case_insensitive() {
    let analysis = TreeAnalysis {
        has_text_nodes: true,
        unsupported_features: Vec::new(),
        text_font_requirements: vec![
            requirement(&["named:Zapfino", "named:Inter", "generic:serif"], 400),
            requirement(&["named:Arial", "named:Zapfino"], 700),
        ],
    };
    let loaded = vec!["inter".to_string(), "Helvetica".to_string()];
    assert_eq!(
        analysis.missing_named_font_families(&loaded),
        vec!["Arial".to_string(), "Zapfino".to_string()]
    );
    let all_loaded = vec!["ARIAL".to_string(), "zapfino".to_string(), "Inter".to_string()];
    assert!(analysis.missing_named_font_families(&all_loaded).is_empty());
}

#[test]
fn analysis_records_each_font_request_once() {
    let path = || SvgNode::Path {
        fill: Some(PaintKind::Color),
        stroke: Some(PaintKind::LinearGradient(SpreadMethod::Pad)),
    };
    let text = || SvgNode::Text {
        span_fonts: vec![requirement(&["named:Inter"], 400), requirement(&["named:Inter"], 400)],
        flattened: vec![path()],
    };
    let tree = vec![
        path(),
        SvgNode::Group { has_filters: true, children: vec![text(), SvgNode::Image] },
        text(),
    ];
    let analysis = analyze_tree(&tree, false);
    assert!(analysis.has_text_nodes);
    assert!(analysis.unsupported_features.is_empty());
    assert_eq!(analysis.text_font_requirements, vec![requirement(&["named:Inter"], 400)]);
}

#[test]
fn text_nodes_are_detected_in_parsed_documents() {
    let tree = parse(
        r##"<svg xmlns="http://www.w3.org/2000/svg" viewBox="0 0 10 10">
<rect width="10" height="10" fill="#000"/>
</svg>"##,
    );
    let analysis = analyze_tree(&nodes(&tree), false);
    assert!(!analysis.has_text_nodes);
    assert!(analysis.text_font_requirements.is_empty());
}

#[test]
fn feature_lists_keep_first_occurrences() {
    let mut features = Vec::new();
    push_feature_name(&mut features, "filters");
    push_feature_name(&mut features, "fill linear gradients");
    push_feature_name(&mut features, "filters");
    assert_eq!(features, vec!["filters".to_string(), "fill linear gradients".to_string()]);

    let mut analysis = TreeAnalysis {
        has_text_nodes: false,
        unsupported_features: Vec::new(),
        text_font_requirements: Vec::new(),
    };
    push_feature(&mut analysis, "filters");
    push_feature(&mut analysis, "filters");
    assert_eq!(analysis.unsupported_features, vec!["filters".to_string()]);

    add_text_font_requirement(&mut analysis, requirement(&["named:A"], 400));
    add_text_font_requirement(&mut analysis, requirement(&["named:A"], 400));
    add_text_font_requirement(&mut analysis, requirement(&["named:A"], 700));
    assert_eq!(analysis.text_font_requirements.len(), 2);
}

#[test]
fn plain_paths_and_images_need_no_raster() {
    let p = SvgNode::Path { fill: Some(PaintKind::Pattern), stroke: None };
    assert!(node_unsupported_features(&p, false).is_empty());
    assert!(!node_requires_raster(&SvgNode::Image, true));
    let g = SvgNode::Group { has_filters: true, children: Vec::new() };
    assert!(!node_requires_raster(&g, false));
}
