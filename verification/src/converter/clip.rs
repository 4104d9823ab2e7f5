//! How a clip path is drawn: as a vector clip of its outlines, or, when an
//! image takes part in it (in it or in a clip path it is clipped by), as a
//! soft mask painted from its content.

use vstd::prelude::*;

use crate::validation::SvgNode;

verus! {

/// A clip path as the decision reads it: the clip path that clips it, if
/// any, and its content.
pub struct ClipModel {
    pub nested: Option<Box<ClipModel>>,
    pub children: Vec<SvgNode>,
}

/// An image occurs in `node` or below it (in groups and in the paths that
/// text is flattened into).
pub open spec fn node_has_image(node: SvgNode) -> bool
    decreases node,
{
    match node {
        SvgNode::Image => true,
        SvgNode::Group { children, .. } => nodes_have_image(children@),
        SvgNode::Text { flattened, .. } => nodes_have_image(flattened@),
        SvgNode::Path { .. } => false,
    }
}

/// An image occurs in one of `nodes`.
pub open spec fn nodes_have_image(nodes: Seq<SvgNode>) -> bool
    decreases nodes,
{
    if nodes.len() == 0 {
        false
    } else {
        nodes_have_image(nodes.drop_last()) || node_has_image(nodes.last())
    }
}

/// A clip path needs a soft mask when the clip path that clips it does, or
/// when an image occurs in its content.
pub open spec fn spec_clip_uses_soft_mask(clip: ClipModel) -> bool
    decreases clip,
{
    (match clip.nested {
        Some(nested) => spec_clip_uses_soft_mask(*nested),
        None => false,
    }) || nodes_have_image(clip.children@)
}

/// Whether an image occurs in `node` or below it.
pub fn node_contains_image(node: &SvgNode) -> (r: bool)
    ensures
        r == node_has_image(*node),
    decreases node, 1nat,
{
    match node {
        SvgNode::Image => true,
        SvgNode::Group { children, .. } => nodes_contain_image(children),
        SvgNode::Text { flattened, .. } => nodes_contain_image(flattened),
        SvgNode::Path { .. } => false,
    }
}

/// Whether an image occurs in one of `nodes`.
pub fn nodes_contain_image(nodes: &Vec<SvgNode>) -> (r: bool)
    ensures
        r == nodes_have_image(nodes@),
    decreases nodes, 0nat,
{
    let mut found = false;
    let mut i: usize = 0;
    while i < nodes.len()
        invariant
            i <= nodes@.len(),
            found == nodes_have_image(nodes@.take(i as int)),
        decreases nodes@.len() - i,
    {
        proof {
            assert(nodes@.take(i + 1).drop_last() =~= nodes@.take(i as int));
            assert(nodes@.take(i + 1).last() == nodes@[i as int]);
        }
        if !found {
            proof {
                assert(decreases_to!(nodes => nodes@[i as int]));
            }
            found = node_contains_image(&nodes[i]);
        }
        i = i + 1;
    }
    proof {
        assert(nodes@.take(i as int) =~= nodes@);
    }
    found
}

/// Whether `clip` is drawn as a soft mask rather than as a vector clip.
pub fn clip_uses_soft_mask(clip: &ClipModel) -> (r: bool)
    ensures
        r == spec_clip_uses_soft_mask(*clip),
    decreases clip,
{
    let nested = match &clip.nested {
        Some(n) => clip_uses_soft_mask(n),
        None => false,
    };
    nested || nodes_contain_image(&clip.children)
}

} // verus!
