//! The float-free core of the converter: the resource registry, the page
//! content stream and the TeX wrapper around it.

pub mod image;
pub mod clip;
pub mod filter;
pub mod filter_graph;
pub mod filter_steps;
pub mod gradient;
pub mod latex;
pub mod paint;
pub mod resources;
pub mod util;

use vstd::prelude::*;

use crate::{TexEngine, TexFormat};
use resources::PdfResources;

verus! {

/// The state of one conversion: the registered resources, the PDF operators
/// of the page written so far, and the output settings.
pub struct PdfConverter {
    pub resources: PdfResources,
    pub pdf_ops: String,
    pub embed_images: bool,
    pub engine: TexEngine,
    pub tex_format: TexFormat,
}

impl PdfConverter {
    /// A converter with no resources and no operators yet.
    pub fn new(embed_images: bool, engine: TexEngine, tex_format: TexFormat) -> (r: Self)
        ensures
            r.resources@.wf(),
            r.resources@.ext_gstates.len() == 0,
            r.resources@.functions.len() == 0,
            r.resources@.images.len() == 0,
            r.resources@.shadings.len() == 0,
            r.resources@.forms.len() == 0,
            r.resources@.patterns.len() == 0,
            r.resources@.next_id == 1,
            r.pdf_ops@ == Seq::<char>::empty(),
            r.embed_images == embed_images,
            r.engine == engine,
            r.tex_format == tex_format,
    {
        PdfConverter {
            resources: PdfResources::new(),
            pdf_ops: String::new(),
            embed_images,
            engine,
            tex_format,
        }
    }

    /// The page's PDF operators as they stand.
    pub fn generate_pdf_literal(&self) -> (r: String)
        ensures
            r@ == self.pdf_ops@,
    {
        self.pdf_ops.clone()
    }
}

} // verus!
