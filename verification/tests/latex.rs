use svg2tex_rs::converter::image::{ImageResource, SoftMaskResource};
use svg2tex_rs::{PdfConverter, TexEngine, TexFormat};

fn with_gstate(engine: TexEngine, format: TexFormat) -> PdfConverter {
    let mut c = PdfConverter::new(false, engine, format);
    c.ensure_ext_gstate(&["/ca 0.500000".to_string()]);
    c.pdf_ops.push_str("0 0 m ");
    c
}

#[test]
fn pdftex_standalone_document() {
    let c = with_gstate(TexEngine::PdfTeX, TexFormat::Standalone);
    let expected = "\\documentclass[crop]{standalone}
\\usepackage{graphicx}
\\usepackage{calc}

% PDF Resource Definitions
\\pdfobj reserveobjnum
\\expandafter\\edef\\csname svgobj@GS1\\endcsname{\\the\\pdflastobj}
\\immediate\\pdfobj useobjnum \\csname svgobj@GS1\\endcsname{<</Type/ExtGState /ca 0.500000>>}

% Add resources to page
\\pdfpageresources\\expanded{{
  /ExtGState<</GS1 \\csname svgobj@GS1\\endcsname\\space 0 R>>
}}

% Definition of SVG Command
\\newcommand{\\mysvg}[1][1]{%
  \\scalebox{#1}{%
    \\begin{picture}(10,12.5)%
      \\pdfliteral direct{0 0 m }%
    \\end{picture}%
  }%
}

\\begin{document}

\\mysvg

\\end{document}
";
    assert_eq!(c.generate_latex("10", "12.5"), expected);
}

#[test]
fn luatex_article_document() {
    let c = with_gstate(TexEngine::LuaTeX, TexFormat::Article);
    let expected = "\\documentclass{article}
\\usepackage{graphicx}
\\usepackage{calc}

% PDF Resource Definitions
\\pdfextension obj reserveobjnum
\\expandafter\\edef\\csname svgobj@GS1\\endcsname{\\the\\numexpr\\pdffeedback lastobj\\relax}
\\immediate\\pdfextension obj useobjnum \\csname svgobj@GS1\\endcsname{<</Type/ExtGState /ca 0.500000>>}

% Add resources to page
\\pdfvariable pageresources\\expanded{{
  /ExtGState<</GS1 \\csname svgobj@GS1\\endcsname\\space 0 R>>
}}

% Definition of SVG Command
\\newcommand{\\mysvg}[1][1]{%
  \\scalebox{#1}{%
    \\begin{picture}(4,3)%
      \\pdfextension literal direct{0 0 m }%
    \\end{picture}%
  }%
}

\\begin{document}

\\mysvg

\\end{document}
";
    assert_eq!(c.generate_latex("4", "3"), expected);
}

#[test]
fn xetex_snippet_uses_dvi_specials() {
    let c = with_gstate(TexEngine::XeTeX, TexFormat::Snippet);
    let expected = "\\RequirePackage{iftex}
\\RequirePackage{graphicx}
\\RequirePackage{calc}
\\makeatletter
\\newif\\ifsvgpdfmode
\\@ifundefined{pdfoutput}{\\svgpdfmodefalse}{%
  \\ifnum\\pdfoutput>0 \\svgpdfmodetrue\\else\\svgpdfmodefalse\\fi
}
\\makeatother

% PDF Resource Definitions
\\special{pdf:obj @GS1 <</Type/ExtGState /ca 0.500000>>}

% Add resources to page
\\special{pdf:put @resources <</ExtGState<</GS1 @GS1>>>>}

% Definition of SVG Command
\\newcommand{\\mysvg}[1][1]{%
  \\scalebox{#1}{%
    \\begin{picture}(1,2)%
      \\special{pdf:literal direct 0 0 m }%
    \\end{picture}%
  }%
}

";
    assert_eq!(c.generate_latex("1", "2"), expected);
}

#[test]
fn auto_engine_detects_the_backend_at_run_time() {
    let c = PdfConverter::new(false, TexEngine::Auto, TexFormat::Standalone);
    let expected = "\\documentclass[crop]{standalone}
\\usepackage{iftex}
\\usepackage{graphicx}
\\usepackage{calc}
\\makeatletter
\\newif\\ifsvgpdfmode
\\@ifundefined{pdfoutput}{\\svgpdfmodefalse}{%
  \\ifnum\\pdfoutput>0 \\svgpdfmodetrue\\else\\svgpdfmodefalse\\fi
}
\\makeatother

% Definition of SVG Command
\\newcommand{\\mysvg}[1][1]{%
  \\scalebox{#1}{%
    \\begin{picture}(5,5)%
      \\ifsvgpdfmode
        \\ifpdftex
          \\pdfliteral direct{}%
        \\else\\ifluatex
          \\pdfextension literal direct{}%
        \\else
          \\special{pdf:literal direct }%
        \\fi\\fi
      \\else
        \\special{pdf:literal direct }%
      \\fi
    \\end{picture}%
  }%
}

\\begin{document}

\\mysvg

\\end{document}
";
    assert_eq!(c.generate_latex("5", "5"), expected);
}

#[test]
fn auto_engine_expands_resources_for_each_backend() {
    let c = with_gstate(TexEngine::Auto, TexFormat::Snippet);
    let out = c.generate_latex("1", "1");
    let defs = "% PDF Resource Definitions
\\ifsvgpdfmode
  \\ifpdftex
\\pdfobj reserveobjnum
\\expandafter\\edef\\csname svgobj@GS1\\endcsname{\\the\\pdflastobj}
\\immediate\\pdfobj useobjnum \\csname svgobj@GS1\\endcsname{<</Type/ExtGState /ca 0.500000>>}
  \\else\\ifluatex
\\pdfextension obj reserveobjnum
\\expandafter\\edef\\csname svgobj@GS1\\endcsname{\\the\\numexpr\\pdffeedback lastobj\\relax}
\\immediate\\pdfextension obj useobjnum \\csname svgobj@GS1\\endcsname{<</Type/ExtGState /ca 0.500000>>}
  \\else
\\special{pdf:obj @GS1 <</Type/ExtGState /ca 0.500000>>}
  \\fi\\fi
\\else
\\special{pdf:obj @GS1 <</Type/ExtGState /ca 0.500000>>}
\\fi

";
    assert!(out.contains(defs));
    let page = "% Add resources to page
\\ifsvgpdfmode
  \\ifpdftex
    \\pdfpageresources\\expanded{{
  /ExtGState<</GS1 \\csname svgobj@GS1\\endcsname\\space 0 R>>
    }}
  \\else\\ifluatex
    \\pdfvariable pageresources\\expanded{{
  /ExtGState<</GS1 \\csname svgobj@GS1\\endcsname\\space 0 R>>
    }}
  \\else
\\special{pdf:put @resources <</ExtGState<</GS1 @GS1>>>>}
  \\fi\\fi
\\else
\\special{pdf:put @resources <</ExtGState<</GS1 @GS1>>>>}
\\fi

";
    assert!(out.contains(page));
    assert!(!out.contains("\\begin{document}"));
}

#[test]
fn ptex_and_uptex_use_the_dvi_backend_too() {
    for engine in [TexEngine::PTeX, TexEngine::UpTeX] {
        let c = with_gstate(engine, TexFormat::Article);
        let out = c.generate_latex("1", "1");
        assert!(out.starts_with("\\documentclass{article}\n\\usepackage{graphicx}\n\n"));
        assert!(out.contains("\\special{pdf:obj @GS1 <</Type/ExtGState /ca 0.500000>>}\n"));
        assert!(out.contains("      \\special{pdf:literal direct 0 0 m }%\n"));
    }
}

#[test]
fn literal_output_is_the_operator_stream() {
    let mut c = PdfConverter::new(false, TexEngine::PdfTeX, TexFormat::Standalone);
    assert_eq!(c.generate_pdf_literal(), "");
    c.pdf_ops.push_str("q 1 0 0 1 0 0 cm Q ");
    assert_eq!(c.generate_pdf_literal(), "q 1 0 0 1 0 0 cm Q ");
}

fn masked_image() -> ImageResource {
    ImageResource {
        width: 2,
        height: 1,
        color_space: "DeviceRGB".to_string(),
        bits_per_component: 8,
        filter: "FlateDecode".to_string(),
        data: vec![0xAB, 0x01],
        smask: Some(SoftMaskResource {
            name: "SMask4".to_string(),
            width: 2,
            height: 1,
            bits_per_component: 8,
            filter: "FlateDecode".to_string(),
            data: vec![0xFF],
        }),
    }
}

#[test]
fn image_objects_come_with_their_soft_masks() {
    let c = PdfConverter::new(true, TexEngine::PdfTeX, TexFormat::Standalone);
    let img = masked_image();
    assert_eq!(
        c.generate_pdftex_image_object("Img3", &img),
        "\\immediate\\pdfobj useobjnum \\csname svgobj@SMask4\\endcsname stream attr{<</Type/XObject/Subtype/Image/Width 2/Height 1/ColorSpace/DeviceGray/BitsPerComponent 8/Filter[/ASCIIHexDecode /FlateDecode]>>}{FF>}\\relax\n\\immediate\\pdfobj useobjnum \\csname svgobj@Img3\\endcsname stream attr{<</Type/XObject/Subtype/Image/Width 2/Height 1/ColorSpace/DeviceRGB/BitsPerComponent 8/Filter[/ASCIIHexDecode /FlateDecode]/SMask \\csname svgobj@SMask4\\endcsname\\space 0 R>>}{AB01>}\\relax\n"
    );
    assert_eq!(
        c.generate_lua_image_object("Img3", &img),
        "\\immediate\\pdfextension obj useobjnum \\csname svgobj@SMask4\\endcsname stream attr{<</Type/XObject/Subtype/Image/Width 2/Height 1/ColorSpace/DeviceGray/BitsPerComponent 8/Filter[/ASCIIHexDecode /FlateDecode]>>}{FF>}\\relax\n\\immediate\\pdfextension obj useobjnum \\csname svgobj@Img3\\endcsname stream attr{<</Type/XObject/Subtype/Image/Width 2/Height 1/ColorSpace/DeviceRGB/BitsPerComponent 8/Filter[/ASCIIHexDecode /FlateDecode]/SMask \\csname svgobj@SMask4\\endcsname\\space 0 R>>}{AB01>}\\relax\n"
    );
    assert_eq!(
        c.generate_dvi_image_object("Img3", &img),
        "\\special{pdf:stream @SMask4 <FF> <</Type/XObject/Subtype/Image/Width 2/Height 1/ColorSpace/DeviceGray/BitsPerComponent 8/Filter/FlateDecode>>}\n\\special{pdf:stream @Img3 <AB01> <</Type/XObject/Subtype/Image/Width 2/Height 1/ColorSpace/DeviceRGB/BitsPerComponent 8/Filter/FlateDecode/SMask @SMask4>>}\n"
    );
}

#[test]
fn resource_definitions_reserve_before_they_write() {
    let mut c = PdfConverter::new(true, TexEngine::PdfTeX, TexFormat::Standalone);
    c.ensure_function("f".to_string(), "<<F>>".to_string(), "<<f>>".to_string());
    c.ensure_form("m".to_string(), "<<M>>".to_string(), "<<m>>".to_string(), vec![0x0A]);
    assert_eq!(
        c.generate_pdftex_resource_defs(),
        "\\pdfobj reserveobjnum
\\expandafter\\edef\\csname svgobj@Fn1\\endcsname{\\the\\pdflastobj}
\\pdfobj reserveobjnum
\\expandafter\\edef\\csname svgobj@Fm2\\endcsname{\\the\\pdflastobj}
\\immediate\\pdfobj useobjnum \\csname svgobj@Fn1\\endcsname{<<F>>}
\\immediate\\pdfobj useobjnum \\csname svgobj@Fm2\\endcsname stream attr{<<M>>}{0A>}\\relax
"
    );
    assert_eq!(
        c.generate_dvi_resource_defs(),
        "\\special{pdf:obj @Fn1 <<f>>}
\\special{pdf:stream @Fm2 <0A> <<m>>}
"
    );
    assert_eq!(
        c.generate_lua_resource_defs(),
        "\\pdfextension obj reserveobjnum
\\expandafter\\edef\\csname svgobj@Fn1\\endcsname{\\the\\numexpr\\pdffeedback lastobj\\relax}
\\pdfextension obj reserveobjnum
\\expandafter\\edef\\csname svgobj@Fm2\\endcsname{\\the\\numexpr\\pdffeedback lastobj\\relax}
\\immediate\\pdfextension obj useobjnum \\csname svgobj@Fn1\\endcsname{<<F>>}
\\immediate\\pdfextension obj useobjnum \\csname svgobj@Fm2\\endcsname stream attr{<<M>>}{0A>}\\relax
"
    );
}

#[test]
fn tex_output_wraps_the_plain_literal_for_every_engine() {
    let engines = [
        (TexEngine::PdfTeX, "\\pdfliteral direct{"),
        (TexEngine::LuaTeX, "\\pdfextension literal direct{"),
        (TexEngine::XeTeX, "\\special{pdf:literal direct "),
        (TexEngine::Auto, "\\special{pdf:literal direct "),
    ];
    for (engine, open) in engines {
        for format in [TexFormat::Standalone, TexFormat::Article, TexFormat::Snippet] {
            let c = with_gstate(engine, format);
            let plain = c.generate_pdf_literal();
            let tex = c.generate_latex("1", "1");
            assert!(tex.contains(&format!("{open}{plain}}}%\n")));
            assert!(tex.contains("\\newcommand{\\mysvg}[1][1]{%"));
        }
    }
}
