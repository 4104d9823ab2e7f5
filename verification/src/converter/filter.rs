//! Filter decisions that do not depend on coordinates: which primitives have a
//! native PDF rendering and the names reported for a raster fallback.

use vstd::prelude::*;

use super::resources::{can_intern, interns, ResourceKind};
use super::PdfConverter;
use crate::tex_engine::is_literal;
use crate::text::views;

verus! {

/// A filter primitive, with what decides whether it is drawn natively.
#[derive(Clone, Copy, PartialEq, Eq, Structural)]
pub enum FilterPrimitiveKind {
    Blend,
    ColorMatrix { luminance_to_alpha: bool },
    ComponentTransfer { alpha_is_identity: bool },
    Composite { arithmetic: bool },
    ConvolveMatrix,
    DiffuseLighting,
    DisplacementMap,
    DropShadow,
    Flood,
    GaussianBlur,
    Image,
    Merge,
    Morphology,
    Offset,
    SpecularLighting,
    Tile,
    Turbulence,
}

/// A primitive is drawn natively: blend, image, flood, merge, offset and tile
/// always; a colour matrix only as luminance-to-alpha; a component transfer
/// only when it leaves alpha unchanged; a composite unless it is arithmetic.
pub open spec fn spec_primitive_is_natively_supported(p: FilterPrimitiveKind) -> bool {
    match p {
        FilterPrimitiveKind::Blend | FilterPrimitiveKind::Image | FilterPrimitiveKind::Flood
        | FilterPrimitiveKind::Merge | FilterPrimitiveKind::Offset | FilterPrimitiveKind::Tile => true,
        FilterPrimitiveKind::ColorMatrix { luminance_to_alpha } => luminance_to_alpha,
        FilterPrimitiveKind::ComponentTransfer { alpha_is_identity } => alpha_is_identity,
        FilterPrimitiveKind::Composite { arithmetic } => !arithmetic,
        _ => false,
    }
}

/// The element name of a primitive.
pub open spec fn primitive_label(p: FilterPrimitiveKind) -> Seq<char> {
    match p {
        FilterPrimitiveKind::Blend => "feBlend"@,
        FilterPrimitiveKind::ColorMatrix { .. } => "feColorMatrix"@,
        FilterPrimitiveKind::ComponentTransfer { .. } => "feComponentTransfer"@,
        FilterPrimitiveKind::Composite { .. } => "feComposite"@,
        FilterPrimitiveKind::ConvolveMatrix => "feConvolveMatrix"@,
        FilterPrimitiveKind::DiffuseLighting => "feDiffuseLighting"@,
        FilterPrimitiveKind::DisplacementMap => "feDisplacementMap"@,
        FilterPrimitiveKind::DropShadow => "feDropShadow"@,
        FilterPrimitiveKind::Flood => "feFlood"@,
        FilterPrimitiveKind::GaussianBlur => "feGaussianBlur"@,
        FilterPrimitiveKind::Image => "feImage"@,
        FilterPrimitiveKind::Merge => "feMerge"@,
        FilterPrimitiveKind::Morphology => "feMorphology"@,
        FilterPrimitiveKind::Offset => "feOffset"@,
        FilterPrimitiveKind::SpecularLighting => "feSpecularLighting"@,
        FilterPrimitiveKind::Tile => "feTile"@,
        FilterPrimitiveKind::Turbulence => "feTurbulence"@,
    }
}

/// `list` with `x` appended unless it already holds it.
pub open spec fn add_unique(list: Seq<Seq<char>>, x: Seq<char>) -> Seq<Seq<char>> {
    if list.contains(x) {
        list
    } else {
        list.push(x)
    }
}

/// `add_unique` of each of `xs` in turn.
pub open spec fn add_all_unique(list: Seq<Seq<char>>, xs: Seq<Seq<char>>) -> Seq<Seq<char>>
    decreases xs.len(),
{
    if xs.len() == 0 {
        list
    } else {
        add_unique(add_all_unique(list, xs.drop_last()), xs.last())
    }
}

/// The element names of all primitives of all filters, first occurrences only.
pub open spec fn spec_filter_feature_names(filters: Seq<Seq<FilterPrimitiveKind>>) -> Seq<Seq<char>>
    decreases filters.len(),
{
    if filters.len() == 0 {
        Seq::empty()
    } else {
        add_all_unique(
            spec_filter_feature_names(filters.drop_last()),
            filters.last().map_values(|p: FilterPrimitiveKind| primitive_label(p)),
        )
    }
}

/// Appends `feature` unless an equal entry is present.
pub fn push_unique(list: &mut Vec<String>, feature: &str)
    ensures
        views(final(list)@) == add_unique(views(old(list)@), feature@),
{
    let mut i: usize = 0;
    while i < list.len()
        invariant
            i <= list@.len(),
            list@ == old(list)@,
            forall|k: int| 0 <= k < i ==> list@[k]@ != feature@,
        decreases list@.len() - i,
    {
        if is_literal(list[i].as_str(), feature) {
            proof {
                assert(views(list@)[i as int] == feature@);
            }
            return;
        }
        i = i + 1;
    }
    proof {
        assert(!views(list@).contains(feature@)) by {
            if views(list@).contains(feature@) {
                let k = choose|k: int| 0 <= k < views(list@).len() && views(list@)[k] == feature@;
                assert(list@[k]@ == feature@);
            }
        }
    }
    let ghost before = list@;
    list.push(feature.to_owned());
    proof {
        assert(views(list@) =~= views(before).push(feature@));
    }
}

/// The element name of a primitive.
pub fn primitive_name(p: FilterPrimitiveKind) -> (r: &'static str)
    ensures
        r@ == primitive_label(p),
{
    match p {
        FilterPrimitiveKind::Blend => "feBlend",
        FilterPrimitiveKind::ColorMatrix { .. } => "feColorMatrix",
        FilterPrimitiveKind::ComponentTransfer { .. } => "feComponentTransfer",
        FilterPrimitiveKind::Composite { .. } => "feComposite",
        FilterPrimitiveKind::ConvolveMatrix => "feConvolveMatrix",
        FilterPrimitiveKind::DiffuseLighting => "feDiffuseLighting",
        FilterPrimitiveKind::DisplacementMap => "feDisplacementMap",
        FilterPrimitiveKind::DropShadow => "feDropShadow",
        FilterPrimitiveKind::Flood => "feFlood",
        FilterPrimitiveKind::GaussianBlur => "feGaussianBlur",
        FilterPrimitiveKind::Image => "feImage",
        FilterPrimitiveKind::Merge => "feMerge",
        FilterPrimitiveKind::Morphology => "feMorphology",
        FilterPrimitiveKind::Offset => "feOffset",
        FilterPrimitiveKind::SpecularLighting => "feSpecularLighting",
        FilterPrimitiveKind::Tile => "feTile",
        FilterPrimitiveKind::Turbulence => "feTurbulence",
    }
}

/// Whether a primitive is drawn natively.
pub fn primitive_is_natively_supported(p: FilterPrimitiveKind) -> (r: bool)
    ensures
        r == spec_primitive_is_natively_supported(p),
{
    match p {
        FilterPrimitiveKind::Blend | FilterPrimitiveKind::Image | FilterPrimitiveKind::Flood
        | FilterPrimitiveKind::Merge | FilterPrimitiveKind::Offset | FilterPrimitiveKind::Tile => true,
        FilterPrimitiveKind::ColorMatrix { luminance_to_alpha } => luminance_to_alpha,
        FilterPrimitiveKind::ComponentTransfer { alpha_is_identity } => alpha_is_identity,
        FilterPrimitiveKind::Composite { arithmetic } => !arithmetic,
        _ => false,
    }
}

/// A filter is drawn natively when all of its primitives are.
pub fn filter_is_natively_supported(primitives: &Vec<FilterPrimitiveKind>) -> (r: bool)
    ensures
        r == forall|k: int| 0 <= k < primitives@.len() ==> spec_primitive_is_natively_supported(#[trigger] primitives@[k]),
{
    let mut i: usize = 0;
    while i < primitives.len()
        invariant
            i <= primitives@.len(),
            forall|k: int| 0 <= k < i ==> spec_primitive_is_natively_supported(#[trigger] primitives@[k]),
        decreases primitives@.len() - i,
    {
        if !primitive_is_natively_supported(primitives[i]) {
            return false;
        }
        i = i + 1;
    }
    true
}

/// A group's filters are drawn natively when every primitive of every filter is.
pub fn filters_are_natively_supported(filters: &Vec<Vec<FilterPrimitiveKind>>) -> (r: bool)
    ensures
        r == forall|f: int, k: int| 0 <= f < filters@.len() && 0 <= k < filters@[f]@.len()
            ==> spec_primitive_is_natively_supported(#[trigger] filters@[f]@[k]),
{
    let mut i: usize = 0;
    while i < filters.len()
        invariant
            i <= filters@.len(),
            forall|f: int, k: int| 0 <= f < i && 0 <= k < filters@[f]@.len()
                ==> spec_primitive_is_natively_supported(#[trigger] filters@[f]@[k]),
        decreases filters@.len() - i,
    {
        if !filter_is_natively_supported(&filters[i]) {
            return false;
        }
        i = i + 1;
    }
    true
}

/// Filters are always supported: natively, or through a rasterized snapshot of
/// the filtered group.
pub fn filters_are_supported() -> (r: bool)
    ensures
        r,
{
    true
}

/// The element names of the primitives, in order of first occurrence; these
/// are the reasons reported when a filtered group is rasterized.
pub fn filter_feature_names(filters: &Vec<Vec<FilterPrimitiveKind>>) -> (r: Vec<String>)
    ensures
        views(r@) == spec_filter_feature_names(filters@.map_values(|f: Vec<FilterPrimitiveKind>| f@)),
{
    let ghost fs = filters@.map_values(|f: Vec<FilterPrimitiveKind>| f@);
    let mut features: Vec<String> = Vec::new();
    let mut i: usize = 0;
    while i < filters.len()
        invariant
            fs == filters@.map_values(|f: Vec<FilterPrimitiveKind>| f@),
            i <= filters@.len(),
            views(features@) == spec_filter_feature_names(fs.take(i as int)),
        decreases filters@.len() - i,
    {
        let prims = &filters[i];
        let ghost labels = prims@.map_values(|p: FilterPrimitiveKind| primitive_label(p));
        let ghost start = views(features@);
        let mut j: usize = 0;
        while j < prims.len()
            invariant
                labels == prims@.map_values(|p: FilterPrimitiveKind| primitive_label(p)),
                j <= prims@.len(),
                views(features@) == add_all_unique(start, labels.take(j as int)),
            decreases prims@.len() - j,
        {
            push_unique(&mut features, primitive_name(prims[j]));
            proof {
                assert(labels.take(j + 1).drop_last() =~= labels.take(j as int));
            }
            j = j + 1;
        }
        proof {
            assert(labels.take(j as int) =~= labels);
            assert(fs.take(i + 1).drop_last() =~= fs.take(i as int));
            assert(fs[i as int] == prims@);
        }
        i = i + 1;
    }
    proof {
        assert(fs.take(i as int) =~= fs);
    }
    features
}

impl PdfConverter {
    /// Interns the transfer function that inverts a mask (1 at 0, 0 at 1).
    pub fn ensure_invert_transfer_function(&mut self) -> (name: String)
        requires
            can_intern(old(self).resources@, ResourceKind::Function, "filter/transfer/invert"@),
        ensures
            final(self).resources@.wf(),
            interns(
                old(self).resources@,
                final(self).resources@,
                ResourceKind::Function,
                name@,
                "filter/transfer/invert"@,
                "<< /FunctionType 2 /Domain [0 1] /C0 [1] /C1 [0] /N 1 >>"@,
                "<< /FunctionType 2 /Domain [0 1] /C0 [1] /C1 [0] /N 1 >>"@,
                Seq::empty(),
            ),
            super::resources::same_but_resources(final(self), old(self)),
    {
        self.ensure_function(
            "filter/transfer/invert".to_owned(),
            "<< /FunctionType 2 /Domain [0 1] /C0 [1] /C1 [0] /N 1 >>".to_owned(),
            "<< /FunctionType 2 /Domain [0 1] /C0 [1] /C1 [0] /N 1 >>".to_owned(),
        )
    }
}

} // verus!
