//! TeX engines that the generated wrapper can target.

use vstd::prelude::*;

use crate::text::{lowercase, to_lowercase};

verus! {

/// TeX backends supported by the generated output wrapper.
#[derive(Debug, Clone, Copy, PartialEq, Eq, Structural)]
pub enum TexEngine {
    Auto,
    PdfTeX,
    LuaTeX,
    XeTeX,
    PTeX,
    UpTeX,
}

/// The engine that a lowercase engine name denotes.
pub open spec fn engine_named(name: Seq<char>) -> Option<TexEngine> {
    if name == "auto"@ {
        Some(TexEngine::Auto)
    } else if name == "pdftex"@ {
        Some(TexEngine::PdfTeX)
    } else if name == "luatex"@ {
        Some(TexEngine::LuaTeX)
    } else if name == "xetex"@ {
        Some(TexEngine::XeTeX)
    } else if name == "ptex"@ {
        Some(TexEngine::PTeX)
    } else if name == "uptex"@ {
        Some(TexEngine::UpTeX)
    } else {
        None
    }
}

/// `s` spells the literal `lit`.
pub(crate) fn is_literal(s: &str, lit: &str) -> (r: bool)
    ensures
        r == (s@ == lit@),
{
    s.to_owned() == lit.to_owned()
}

impl TexEngine {
    /// The engine named by an already lowercased name.
    pub fn from_lowercase(name: &str) -> (r: Option<TexEngine>)
        ensures
            r == engine_named(name@),
    {
        if is_literal(name, "auto") {
            Some(TexEngine::Auto)
        } else if is_literal(name, "pdftex") {
            Some(TexEngine::PdfTeX)
        } else if is_literal(name, "luatex") {
            Some(TexEngine::LuaTeX)
        } else if is_literal(name, "xetex") {
            Some(TexEngine::XeTeX)
        } else if is_literal(name, "ptex") {
            Some(TexEngine::PTeX)
        } else if is_literal(name, "uptex") {
            Some(TexEngine::UpTeX)
        } else {
            None
        }
    }

    /// Parses an engine name case-insensitively (`auto`, `pdftex`, `luatex`,
    /// `xetex`, `ptex`, `uptex`); any other name is refused with
    /// `Unknown engine: <name>`.
    pub fn from_name(s: &str) -> (r: Result<TexEngine, String>)
        ensures
            match engine_named(lowercase(s@)) {
                Some(e) => r == Ok::<TexEngine, String>(e),
                None => r matches Err(msg) && msg@ == "Unknown engine: "@ + s@,
            },
    {
        let lower = to_lowercase(s);
        match TexEngine::from_lowercase(lower.as_str()) {
            Some(e) => Ok(e),
            None => {
                let mut msg = String::new();
                msg.append("Unknown engine: ");
                msg.append(s);
                Err(msg)
            },
        }
    }
}

impl std::str::FromStr for TexEngine {
    type Err = String;

    fn from_str(s: &str) -> (r: Result<Self, Self::Err>)
        ensures
            match engine_named(lowercase(s@)) {
                Some(v) => r == Ok::<TexEngine, String>(v),
                None => r matches Err(msg) && msg@ == "Unknown engine: "@ + s@,
            },
    {
        TexEngine::from_name(s)
    }
}

} // verus!
