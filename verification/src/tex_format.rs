//! Document formats of the generated TeX output.

use vstd::prelude::*;

use crate::tex_engine::is_literal;
use crate::text::{lowercase, to_lowercase};

verus! {

/// Layout of the TeX document that wraps the PDF literal.
#[derive(Debug, Clone, Copy, PartialEq, Eq, Structural)]
pub enum TexFormat {
    Standalone,
    Article,
    Snippet,
}

/// The format that a lowercase format name denotes.
pub open spec fn format_named(name: Seq<char>) -> Option<TexFormat> {
    if name == "standalone"@ {
        Some(TexFormat::Standalone)
    } else if name == "article"@ {
        Some(TexFormat::Article)
    } else if name == "snippet"@ {
        Some(TexFormat::Snippet)
    } else {
        None
    }
}

impl TexFormat {
    /// The format named by an already lowercased name.
    pub fn from_lowercase(name: &str) -> (r: Option<TexFormat>)
        ensures
            r == format_named(name@),
    {
        if is_literal(name, "standalone") {
            Some(TexFormat::Standalone)
        } else if is_literal(name, "article") {
            Some(TexFormat::Article)
        } else if is_literal(name, "snippet") {
            Some(TexFormat::Snippet)
        } else {
            None
        }
    }

    /// Parses a format name case-insensitively (`standalone`, `article`,
    /// `snippet`); any other name is refused with `Unknown TeX format: <name>`.
    pub fn from_name(s: &str) -> (r: Result<TexFormat, String>)
        ensures
            match format_named(lowercase(s@)) {
                Some(f) => r == Ok::<TexFormat, String>(f),
                None => r matches Err(msg) && msg@ == "Unknown TeX format: "@ + s@,
            },
    {
        let lower = to_lowercase(s);
        match TexFormat::from_lowercase(lower.as_str()) {
            Some(f) => Ok(f),
            None => {
                let mut msg = String::new();
                msg.append("Unknown TeX format: ");
                msg.append(s);
                Err(msg)
            },
        }
    }
}

impl std::str::FromStr for TexFormat {
    type Err = String;

    fn from_str(s: &str) -> (r: Result<Self, Self::Err>)
        ensures
            match format_named(lowercase(s@)) {
                Some(v) => r == Ok::<TexFormat, String>(v),
                None => r matches Err(msg) && msg@ == "Unknown TeX format: "@ + s@,
            },
    {
        TexFormat::from_name(s)
    }
}

} // verus!
