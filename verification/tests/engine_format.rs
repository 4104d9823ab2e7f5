use svg2tex_rs::{TexEngine, TexFormat};

#[test]
fn engine_names_parse_without_case() {
    assert_eq!(TexEngine::from_name("auto"), Ok(TexEngine::Auto));
    assert_eq!(TexEngine::from_name("pdftex"), Ok(TexEngine::PdfTeX));
    assert_eq!(TexEngine::from_name("LuaTeX"), Ok(TexEngine::LuaTeX));
    assert_eq!(TexEngine::from_name("XETEX"), Ok(TexEngine::XeTeX));
    assert_eq!(TexEngine::from_name("pTeX"), Ok(TexEngine::PTeX));
    assert_eq!(TexEngine::from_name("upTeX"), Ok(TexEngine::UpTeX));
    assert_eq!("PDFTEX".parse::<TexEngine>(), Ok(TexEngine::PdfTeX));
}

#[test]
fn unknown_engine_is_refused_with_its_name() {
    assert_eq!(TexEngine::from_name("context"), Err("Unknown engine: context".to_string()));
    assert_eq!(TexEngine::from_name(""), Err("Unknown engine: ".to_string()));
    assert_eq!("Lua TeX".parse::<TexEngine>(), Err("Unknown engine: Lua TeX".to_string()));
    assert_eq!(TexEngine::from_lowercase("LuaTeX"), None);
    assert_eq!(TexEngine::from_lowercase("luatex"), Some(TexEngine::LuaTeX));
}

#[test]
fn format_names_parse_without_case() {
    assert_eq!(TexFormat::from_name("standalone"), Ok(TexFormat::Standalone));
    assert_eq!(TexFormat::from_name("Article"), Ok(TexFormat::Article));
    assert_eq!("SNIPPET".parse::<TexFormat>(), Ok(TexFormat::Snippet));
    assert_eq!(TexFormat::from_lowercase("article"), Some(TexFormat::Article));
}

#[test]
fn unknown_format_is_refused_with_its_name() {
    assert_eq!(TexFormat::from_name("beamer"), Err("Unknown TeX format: beamer".to_string()));
    assert_eq!("Report".parse::<TexFormat>(), Err("Unknown TeX format: Report".to_string()));
}
