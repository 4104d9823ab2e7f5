//! Conversion of SVG artwork into PDF literal operators and TeX source.
//!
//! The library holds the parts of the pipeline that decide what is written:
//! resource interning, the TeX wrapper, image sample layout, SVG rewriting,
//! font diagnostics and the run policy.

pub mod converter;
pub mod pipeline;
pub mod preprocess;
pub mod tex_engine;
pub mod tex_format;
pub mod text;
pub mod validation;

pub use converter::PdfConverter;
pub use tex_engine::TexEngine;
pub use tex_format::TexFormat;
