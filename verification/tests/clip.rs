use svg2tex_rs::converter::clip::{clip_uses_soft_mask, node_contains_image, nodes_contain_image, ClipModel};
use svg2tex_rs::validation::SvgNode;

fn path() -> SvgNode {
    SvgNode::Path { fill: None, stroke: None }
}

fn group(children: Vec<SvgNode>) -> SvgNode {
    SvgNode::Group { has_filters: false, children }
}

#[test]
fn images_are_found_at_any_depth() {
    assert!(node_contains_image(&SvgNode::Image));
    assert!(!node_contains_image(&path()));
    assert!(node_contains_image(&group(vec![path(), group(vec![SvgNode::Image])])));
    assert!(!node_contains_image(&group(vec![path(), group(vec![path()])])));
    let text = SvgNode::Text { span_fonts: Vec::new(), flattened: vec![group(vec![SvgNode::Image])] };
    assert!(node_contains_image(&text));
    assert!(!nodes_contain_image(&Vec::new()));
    assert!(nodes_contain_image(&vec![path(), SvgNode::Image, path()]));
}

#[test]
fn outline_clip_paths_stay_vector_clips() {
    let clip = ClipModel { nested: None, children: vec![path(), group(vec![path()])] };
    assert!(!clip_uses_soft_mask(&clip));
}

#[test]
fn an_image_in_the_clip_path_needs_a_soft_mask() {
    let clip = ClipModel { nested: None, children: vec![path(), group(vec![SvgNode::Image])] };
    assert!(clip_uses_soft_mask(&clip));
}

#[test]
fn an_image_in_a_clipping_clip_path_needs_a_soft_mask() {
    let inner = ClipModel { nested: None, children: vec![SvgNode::Image] };
    let outer = ClipModel { nested: Some(Box::new(inner)), children: vec![path()] };
    assert!(clip_uses_soft_mask(&outer));
    let inner = ClipModel { nested: None, children: vec![path()] };
    let outer = ClipModel { nested: Some(Box::new(inner)), children: vec![path()] };
    assert!(!clip_uses_soft_mask(&outer));
}
