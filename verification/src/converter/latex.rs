//! The TeX wrapper: object reservations and definitions for each backend, the
//! page resource dictionaries and the document around the PDF literal.

use vstd::prelude::*;

use super::image::{
    ascii_hex, dvi_image_dict, dvi_smask_dict, tex_image_dict, tex_smask_dict, ImageResource,
};
use super::resources::{
    entry_names, image_names_of, names_of, pdf_ref_item, push_section,
    image_names, opt_section, ref_items, sorted_entries, sorted_entry_names,
    sorted_image_entries, xobject_items, ImageEntry, PdfResources, ResourceEntry, ResourcesView,
};
use super::util::{push_tex_obj_macro, spec_tex_obj_macro};
use super::PdfConverter;
use crate::text::{
    arrange, concat_all, concat_map, hex_bytes, join, lemma_concat_map_step, push_hex_bytes,
    concat_strings, sorted_order, views, keys_distinct, lemma_sorted_by_key_canonical, order_by_key,
    sorted_by_key, sorted_keys, lemma_order_by_key_bounds, lemma_sorted_keys_complete,
};
use crate::{TexEngine, TexFormat};

verus! {

// ---------------------------------------------------------------------------
// Lines of the resource definitions
// ---------------------------------------------------------------------------

/// Reserves an object number and stores it in the object's control sequence.
pub open spec fn reserve_line(reserve: Seq<char>, last: Seq<char>, name: Seq<char>) -> Seq<char> {
    reserve + "\\expandafter\\edef"@ + spec_tex_obj_macro(name) + last
}

/// Writes a dictionary object under its reserved number.
pub open spec fn use_obj_line(use_obj: Seq<char>, name: Seq<char>, dict: Seq<char>) -> Seq<char> {
    use_obj + spec_tex_obj_macro(name) + "{"@ + dict + "}\n"@
}

/// Writes a stream object under its reserved number, the data as ASCII hex.
pub open spec fn use_stream_line(use_obj: Seq<char>, name: Seq<char>, dict: Seq<char>, stream: Seq<u8>) -> Seq<char> {
    use_obj + spec_tex_obj_macro(name) + " stream attr{"@ + dict + "}{"@ + ascii_hex(stream)
        + "}\\relax\n"@
}

/// Defines a named dictionary object for the DVI backend.
pub open spec fn dvi_obj_line(name: Seq<char>, dict: Seq<char>) -> Seq<char> {
    "\\special{pdf:obj @"@ + name + " "@ + dict + "}\n"@
}

/// Defines a named stream object for the DVI backend.
pub open spec fn dvi_stream_line(name: Seq<char>, dict: Seq<char>, stream: Seq<u8>) -> Seq<char> {
    "\\special{pdf:stream @"@ + name + " <"@ + hex_bytes(stream) + "> "@ + dict + "}\n"@
}

/// What is written for one interned object.
#[derive(PartialEq, Eq, Structural, Clone, Copy)]
pub enum EntryLine {
    Reserve,
    UseObj,
    UseStream,
    DviObj,
    DviShading,
    DviStream,
}

/// The line written for `e`; `a` and `b` are the backend's command words.
pub open spec fn entry_line(kind: EntryLine, a: Seq<char>, b: Seq<char>, e: ResourceEntry) -> Seq<char> {
    match kind {
        EntryLine::Reserve => reserve_line(a, b, e.name@),
        EntryLine::UseObj => use_obj_line(a, e.name@, e.pdf_dict@),
        EntryLine::UseStream => use_stream_line(a, e.name@, e.pdf_dict@, e.stream@),
        EntryLine::DviObj => dvi_obj_line(e.name@, e.dvi_dict@),
        EntryLine::DviShading => dvi_obj_line(e.name@, e.pdf_dict@),
        EntryLine::DviStream => dvi_stream_line(e.name@, e.dvi_dict@, e.stream@),
    }
}

pub open spec fn entry_lines(kind: EntryLine, a: Seq<char>, b: Seq<char>) -> spec_fn(ResourceEntry) -> Seq<char> {
    |e: ResourceEntry| entry_line(kind, a, b, e)
}

/// What is written for one image.
#[derive(PartialEq, Eq, Structural, Clone, Copy)]
pub enum ImageLine {
    Reserve,
    TexObject,
    DviObject,
}

/// The lines written for the image `img` named `name` (its soft mask first).
pub open spec fn image_object_lines(kind: ImageLine, a: Seq<char>, b: Seq<char>, name: Seq<char>, img: ImageResource) -> Seq<char> {
    match kind {
        ImageLine::Reserve => (match img.smask {
            Some(m) => reserve_line(a, b, m.name@),
            None => Seq::empty(),
        }) + reserve_line(a, b, name),
        ImageLine::TexObject => (match img.smask {
            Some(m) => use_stream_line(a, m.name@, tex_smask_dict(m), m.data@),
            None => Seq::empty(),
        }) + use_stream_line(a, name, tex_image_dict(img), img.data@),
        ImageLine::DviObject => (match img.smask {
            Some(m) => dvi_stream_line(m.name@, dvi_smask_dict(m), m.data@),
            None => Seq::empty(),
        }) + dvi_stream_line(name, dvi_image_dict(img), img.data@),
    }
}

/// The lines written for the registered image `e`.
pub open spec fn image_line(kind: ImageLine, a: Seq<char>, b: Seq<char>, e: ImageEntry) -> Seq<char> {
    image_object_lines(kind, a, b, e.name@, e.image)
}

pub open spec fn image_lines(kind: ImageLine, a: Seq<char>, b: Seq<char>) -> spec_fn(ImageEntry) -> Seq<char> {
    |e: ImageEntry| image_line(kind, a, b, e)
}

/// Reservations then definitions of every object for pdfTeX or LuaTeX, each
/// kind in byte order of names: functions, shadings, forms, patterns, graphics
/// states, images.
pub open spec fn tex_resource_defs(r: ResourcesView, reserve: Seq<char>, last: Seq<char>, use_obj: Seq<char>) -> Seq<char> {
    let res = entry_lines(EntryLine::Reserve, reserve, last);
    concat_map(sorted_entries(r.functions), res) + concat_map(sorted_entries(r.shadings), res)
        + concat_map(sorted_entries(r.forms), res) + concat_map(sorted_entries(r.patterns), res)
        + concat_map(sorted_entries(r.ext_gstates), res) + concat_map(
        sorted_image_entries(r.images),
        image_lines(ImageLine::Reserve, reserve, last),
    ) + concat_map(sorted_entries(r.functions), entry_lines(EntryLine::UseObj, use_obj, Seq::empty()))
        + concat_map(sorted_entries(r.shadings), entry_lines(EntryLine::UseObj, use_obj, Seq::empty()))
        + concat_map(sorted_entries(r.forms), entry_lines(EntryLine::UseStream, use_obj, Seq::empty()))
        + concat_map(sorted_entries(r.patterns), entry_lines(EntryLine::UseStream, use_obj, Seq::empty()))
        + concat_map(sorted_entries(r.ext_gstates), entry_lines(EntryLine::UseObj, use_obj, Seq::empty()))
        + concat_map(sorted_image_entries(r.images), image_lines(ImageLine::TexObject, use_obj, Seq::empty()))
}

/// The object definitions for pdfTeX.
pub open spec fn pdftex_resource_defs(r: ResourcesView) -> Seq<char> {
    tex_resource_defs(
        r,
        "\\pdfobj reserveobjnum\n"@,
        "{\\the\\pdflastobj}\n"@,
        "\\immediate\\pdfobj useobjnum "@,
    )
}

/// The object definitions for LuaTeX.
pub open spec fn lua_resource_defs(r: ResourcesView) -> Seq<char> {
    tex_resource_defs(
        r,
        "\\pdfextension obj reserveobjnum\n"@,
        "{\\the\\numexpr\\pdffeedback lastobj\\relax}\n"@,
        "\\immediate\\pdfextension obj useobjnum "@,
    )
}

/// The named object definitions for the DVI backend, in the same order.
pub open spec fn dvi_resource_defs(r: ResourcesView) -> Seq<char> {
    concat_map(sorted_entries(r.functions), entry_lines(EntryLine::DviObj, Seq::empty(), Seq::empty()))
        + concat_map(sorted_entries(r.shadings), entry_lines(EntryLine::DviShading, Seq::empty(), Seq::empty()))
        + concat_map(sorted_entries(r.forms), entry_lines(EntryLine::DviStream, Seq::empty(), Seq::empty()))
        + concat_map(sorted_entries(r.patterns), entry_lines(EntryLine::DviStream, Seq::empty(), Seq::empty()))
        + concat_map(sorted_entries(r.ext_gstates), entry_lines(EntryLine::DviObj, Seq::empty(), Seq::empty()))
        + concat_map(sorted_image_entries(r.images), image_lines(ImageLine::DviObject, Seq::empty(), Seq::empty()))
}

/// The page resources for pdfTeX/LuaTeX: one line per non-empty section.
pub open spec fn pdf_page_resources(r: ResourcesView) -> Seq<char> {
    concat_all(
        opt_section("  /ExtGState<<"@, ref_items(sorted_entry_names(r.ext_gstates), false), ">>\n"@)
            + opt_section("  /Shading<<"@, ref_items(sorted_entry_names(r.shadings), false), ">>\n"@)
            + opt_section("  /Pattern<<"@, ref_items(sorted_entry_names(r.patterns), false), ">>\n"@)
            + opt_section("  /XObject<<"@, xobject_items(r, false), ">>\n"@),
    )
}

/// The page resources for the DVI backend, as one `pdf:put` special.
pub open spec fn dvi_page_resources(r: ResourcesView) -> Seq<char> {
    let dict = super::resources::inline_resource_dict(r, true, true);
    if dict.len() == 0 {
        Seq::empty()
    } else {
        "\\special{pdf:put @resources "@ + dict + "}\n"@
    }
}

// ---------------------------------------------------------------------------
// The document
// ---------------------------------------------------------------------------

/// Detection of PDF output mode, shared by the automatic engine and snippets.
pub open spec fn pdf_mode_detection() -> Seq<char> {
    "\\makeatletter\n\\newif\\ifsvgpdfmode\n\\@ifundefined{pdfoutput}{\\svgpdfmodefalse}{%\n  \\ifnum\\pdfoutput>0 \\svgpdfmodetrue\\else\\svgpdfmodefalse\\fi\n}\n\\makeatother\n"@
}

/// The document class and packages.
pub open spec fn preamble(format: TexFormat, engine: TexEngine) -> Seq<char> {
    ((match format {
        TexFormat::Standalone => "\\documentclass[crop]{standalone}\n"@,
        TexFormat::Article => "\\documentclass{article}\n"@,
        TexFormat::Snippet => Seq::empty(),
    }) + match format {
        TexFormat::Snippet => "\\RequirePackage{iftex}\n\\RequirePackage{graphicx}\n\\RequirePackage{calc}\n"@
            + pdf_mode_detection(),
        _ => match engine {
            TexEngine::Auto => "\\usepackage{iftex}\n\\usepackage{graphicx}\n\\usepackage{calc}\n"@
                + pdf_mode_detection(),
            TexEngine::PdfTeX | TexEngine::LuaTeX => "\\usepackage{graphicx}\n\\usepackage{calc}\n"@,
            _ => "\\usepackage{graphicx}\n"@,
        },
    }).push('\n')
}

/// The object definitions for the engine (all three when it is chosen at run time).
pub open spec fn definitions_block(engine: TexEngine, pdftex: Seq<char>, lua: Seq<char>, dvi: Seq<char>) -> Seq<char> {
    if pdftex.len() == 0 && lua.len() == 0 && dvi.len() == 0 {
        Seq::empty()
    } else {
        ("% PDF Resource Definitions\n"@ + match engine {
            TexEngine::Auto => "\\ifsvgpdfmode\n  \\ifpdftex\n"@ + pdftex + "  \\else\\ifluatex\n"@
                + lua + "  \\else\n"@ + dvi + "  \\fi\\fi\n\\else\n"@ + dvi + "\\fi\n"@,
            TexEngine::PdfTeX => pdftex,
            TexEngine::LuaTeX => lua,
            _ => dvi,
        }).push('\n')
    }
}

/// `body` wrapped as an expanded argument of `command`, unless it is empty.
pub open spec fn expanded_resources(command: Seq<char>, body: Seq<char>, close: Seq<char>) -> Seq<char> {
    if body.len() == 0 {
        Seq::empty()
    } else {
        command + body + close
    }
}

/// The page resources for the engine.
pub open spec fn page_resources_block(engine: TexEngine, pdf: Seq<char>, dvi: Seq<char>) -> Seq<char> {
    if pdf.len() == 0 && dvi.len() == 0 {
        Seq::empty()
    } else {
        ("% Add resources to page\n"@ + match engine {
            TexEngine::Auto => "\\ifsvgpdfmode\n  \\ifpdftex\n"@ + expanded_resources(
                "    \\pdfpageresources\\expanded{{\n"@,
                pdf,
                "    }}\n"@,
            ) + "  \\else\\ifluatex\n"@ + expanded_resources(
                "    \\pdfvariable pageresources\\expanded{{\n"@,
                pdf,
                "    }}\n"@,
            ) + "  \\else\n"@ + dvi + "  \\fi\\fi\n\\else\n"@ + dvi + "\\fi\n"@,
            TexEngine::PdfTeX => expanded_resources("\\pdfpageresources\\expanded{{\n"@, pdf, "}}\n"@),
            TexEngine::LuaTeX => expanded_resources(
                "\\pdfvariable pageresources\\expanded{{\n"@,
                pdf,
                "}}\n"@,
            ),
            _ => dvi,
        }).push('\n')
    }
}

/// The literal operators for pdfTeX.
pub open spec fn pdftex_literal(indent: Seq<char>, ops: Seq<char>) -> Seq<char> {
    indent + "\\pdfliteral direct{"@ + ops + "}%\n"@
}

/// The literal operators for LuaTeX.
pub open spec fn lua_literal(indent: Seq<char>, ops: Seq<char>) -> Seq<char> {
    indent + "\\pdfextension literal direct{"@ + ops + "}%\n"@
}

/// The literal operators for the DVI backend.
pub open spec fn dvi_literal(indent: Seq<char>, ops: Seq<char>) -> Seq<char> {
    indent + "\\special{pdf:literal direct "@ + ops + "}%\n"@
}

/// The line that opens the definition of the `\mysvg` command.
pub open spec fn mysvg_definition() -> Seq<char> {
    "\\newcommand{\\mysvg}[1][1]{%"@
}

/// The `\mysvg` command: a picture of the given size holding the operators.
pub open spec fn command_block(engine: TexEngine, ops: Seq<char>, width: Seq<char>, height: Seq<char>) -> Seq<char> {
    "% Definition of SVG Command\n"@ + mysvg_definition() + "\n  \\scalebox{#1}{%\n    \\begin{picture}("@
        + width + ","@ + height + ")%\n"@ + match engine {
        TexEngine::Auto => "      \\ifsvgpdfmode\n        \\ifpdftex\n"@ + pdftex_literal(
            "          "@,
            ops,
        ) + "        \\else\\ifluatex\n"@ + lua_literal("          "@, ops) + "        \\else\n"@
            + dvi_literal("          "@, ops) + "        \\fi\\fi\n      \\else\n"@ + dvi_literal(
            "        "@,
            ops,
        ) + "      \\fi\n"@,
        TexEngine::PdfTeX => pdftex_literal("      "@, ops),
        TexEngine::LuaTeX => lua_literal("      "@, ops),
        _ => dvi_literal("      "@, ops),
    } + "    \\end{picture}%\n  }%\n}\n\n"@
}

/// The document body that uses the command, for complete documents.
pub open spec fn document_body(format: TexFormat) -> Seq<char> {
    match format {
        TexFormat::Snippet => Seq::empty(),
        _ => "\\begin{document}\n\n\\mysvg\n\n\\end{document}\n"@,
    }
}

/// The whole TeX output.
pub open spec fn latex_document(
    format: TexFormat,
    engine: TexEngine,
    r: ResourcesView,
    ops: Seq<char>,
    width: Seq<char>,
    height: Seq<char>,
) -> Seq<char> {
    preamble(format, engine) + definitions_block(
        engine,
        pdftex_resource_defs(r),
        lua_resource_defs(r),
        dvi_resource_defs(r),
    ) + page_resources_block(engine, pdf_page_resources(r), dvi_page_resources(r)) + command_block(
        engine,
        ops,
        width,
        height,
    ) + document_body(format)
}

// ---------------------------------------------------------------------------
// Writers
// ---------------------------------------------------------------------------

fn push_entry_line(out: &mut String, kind: EntryLine, a: &str, b: &str, e: &ResourceEntry)
    ensures
        final(out)@ == old(out)@ + entry_line(kind, a@, b@, *e),
{
    let name = e.name.as_str();
    match kind {
        EntryLine::Reserve => {
            out.append(a);
            out.append("\\expandafter\\edef");
            push_tex_obj_macro(out, name);
            out.append(b);
        },
        EntryLine::UseObj => {
            out.append(a);
            push_tex_obj_macro(out, name);
            out.append("{");
            out.append(e.pdf_dict.as_str());
            out.append("}\n");
        },
        EntryLine::UseStream => {
            push_stream_line(out, a, name, e.pdf_dict.as_str(), e.stream.as_slice());
        },
        EntryLine::DviObj | EntryLine::DviShading => {
            out.append("\\special{pdf:obj @");
            out.append(name);
            out.append(" ");
            if kind == EntryLine::DviObj {
                out.append(e.dvi_dict.as_str());
            } else {
                out.append(e.pdf_dict.as_str());
            }
            out.append("}\n");
        },
        EntryLine::DviStream => {
            push_dvi_stream_line(out, name, e.dvi_dict.as_str(), e.stream.as_slice());
        },
    }
    proof {
        assert(final(out)@ =~= old(out)@ + entry_line(kind, a@, b@, *e));
    }
}

fn push_entry_lines(out: &mut String, list: &Vec<ResourceEntry>, order: &Vec<usize>, kind: EntryLine, a: &str, b: &str)
    requires
        forall|k: int| 0 <= k < order@.len() ==> order@[k] < list@.len(),
    ensures
        final(out)@ == old(out)@ + concat_map(arrange(list@, order@), entry_lines(kind, a@, b@)),
{
    let ghost arr = arrange(list@, order@);
    let ghost f = entry_lines(kind, a@, b@);
    let mut k: usize = 0;
    while k < order.len()
        invariant
            forall|j: int| 0 <= j < order@.len() ==> order@[j] < list@.len(),
            arr == arrange(list@, order@),
            f == entry_lines(kind, a@, b@),
            k <= order@.len(),
            out@ == old(out)@ + concat_map(arr.take(k as int), f),
        decreases order@.len() - k,
    {
        push_entry_line(out, kind, a, b, &list[order[k]]);
        proof {
            lemma_concat_map_step(arr, f, k as int);
            assert(arr[k as int] == list@[order@[k as int] as int]);
            assert(out@ =~= old(out)@ + concat_map(arr.take(k + 1), f));
        }
        k = k + 1;
    }
    proof {
        assert(arr.take(order@.len() as int) =~= arr);
    }
}

fn push_smask_part(out: &mut String, kind: ImageLine, a: &str, b: &str, img: &ImageResource)
    ensures
        final(out)@ == old(out)@ + match img.smask {
            Some(m) => match kind {
                ImageLine::Reserve => reserve_line(a@, b@, m.name@),
                ImageLine::TexObject => use_stream_line(a@, m.name@, tex_smask_dict(m), m.data@),
                ImageLine::DviObject => dvi_stream_line(m.name@, dvi_smask_dict(m), m.data@),
            },
            None => Seq::empty(),
        },
{
    match &img.smask {
        Some(m) => {
            let name = m.name.as_str();
            match kind {
                ImageLine::Reserve => {
                    push_entry_reserve(out, a, b, name);
                },
                ImageLine::TexObject => {
                    let dict = tex_smask_dict_of(m);
                    push_stream_line(out, a, name, dict.as_str(), m.data.as_slice());
                },
                ImageLine::DviObject => {
                    let dict = dvi_smask_dict_of(m);
                    push_dvi_stream_line(out, name, dict.as_str(), m.data.as_slice());
                },
            }
        },
        None => {
            proof {
                assert(final(out)@ =~= old(out)@ + Seq::<char>::empty());
            }
        },
    }
}

fn push_image_part(out: &mut String, kind: ImageLine, a: &str, b: &str, name: &str, img: &ImageResource)
    ensures
        final(out)@ == old(out)@ + match kind {
            ImageLine::Reserve => reserve_line(a@, b@, name@),
            ImageLine::TexObject => use_stream_line(a@, name@, tex_image_dict(*img), img.data@),
            ImageLine::DviObject => dvi_stream_line(name@, dvi_image_dict(*img), img.data@),
        },
{
    match kind {
        ImageLine::Reserve => {
            push_entry_reserve(out, a, b, name);
        },
        ImageLine::TexObject => {
            let dict = tex_image_dict_of(img);
            push_stream_line(out, a, name, dict.as_str(), img.data.as_slice());
        },
        ImageLine::DviObject => {
            let dict = dvi_image_dict_of(img);
            push_dvi_stream_line(out, name, dict.as_str(), img.data.as_slice());
        },
    }
}

fn push_image_line(out: &mut String, kind: ImageLine, a: &str, b: &str, e: &ImageEntry)
    ensures
        final(out)@ == old(out)@ + image_line(kind, a@, b@, *e),
{
    push_smask_part(out, kind, a, b, &e.image);
    push_image_part(out, kind, a, b, e.name.as_str(), &e.image);
    proof {
        assert(final(out)@ =~= old(out)@ + image_line(kind, a@, b@, *e));
    }
}

fn push_stream_line(out: &mut String, use_obj: &str, name: &str, dict: &str, data: &[u8])
    ensures
        final(out)@ == old(out)@ + use_stream_line(use_obj@, name@, dict@, data@),
{
    out.append(use_obj);
    push_tex_obj_macro(out, name);
    out.append(" stream attr{");
    out.append(dict);
    out.append("}{");
    let hex = PdfConverter::ascii_hex_stream(data);
    out.append(hex.as_str());
    out.append("}\\relax\n");
    proof {
        assert(final(out)@ =~= old(out)@ + use_stream_line(use_obj@, name@, dict@, data@));
    }
}

fn push_dvi_stream_line(out: &mut String, name: &str, dict: &str, data: &[u8])
    ensures
        final(out)@ == old(out)@ + dvi_stream_line(name@, dict@, data@),
{
    out.append("\\special{pdf:stream @");
    out.append(name);
    out.append(" <");
    push_hex_bytes(out, data);
    out.append("> ");
    out.append(dict);
    out.append("}\n");
    proof {
        assert(final(out)@ =~= old(out)@ + dvi_stream_line(name@, dict@, data@));
    }
}

fn push_entry_reserve(out: &mut String, a: &str, b: &str, name: &str)
    ensures
        final(out)@ == old(out)@ + reserve_line(a@, b@, name@),
{
    out.append(a);
    out.append("\\expandafter\\edef");
    push_tex_obj_macro(out, name);
    out.append(b);
    proof {
        assert(final(out)@ =~= old(out)@ + reserve_line(a@, b@, name@));
    }
}

fn tex_image_dict_of(img: &ImageResource) -> (r: String)
    ensures
        r@ == tex_image_dict(*img),
{
    let c = PdfConverter::new(false, TexEngine::Auto, TexFormat::Snippet);
    c.tex_image_dict_for_pdftex("", img)
}

fn tex_smask_dict_of(m: &super::image::SoftMaskResource) -> (r: String)
    ensures
        r@ == tex_smask_dict(*m),
{
    let c = PdfConverter::new(false, TexEngine::Auto, TexFormat::Snippet);
    c.tex_image_dict_for_pdftex_smask(m)
}

fn dvi_image_dict_of(img: &ImageResource) -> (r: String)
    ensures
        r@ == dvi_image_dict(*img),
{
    let c = PdfConverter::new(false, TexEngine::Auto, TexFormat::Snippet);
    c.dvi_image_dict("", img)
}

fn dvi_smask_dict_of(m: &super::image::SoftMaskResource) -> (r: String)
    ensures
        r@ == dvi_smask_dict(*m),
{
    let c = PdfConverter::new(false, TexEngine::Auto, TexFormat::Snippet);
    c.dvi_image_dict_for_smask(m)
}

fn push_image_lines(out: &mut String, list: &Vec<ImageEntry>, order: &Vec<usize>, kind: ImageLine, a: &str, b: &str)
    requires
        forall|k: int| 0 <= k < order@.len() ==> order@[k] < list@.len(),
    ensures
        final(out)@ == old(out)@ + concat_map(arrange(list@, order@), image_lines(kind, a@, b@)),
{
    let ghost arr = arrange(list@, order@);
    let ghost f = image_lines(kind, a@, b@);
    let mut k: usize = 0;
    while k < order.len()
        invariant
            forall|j: int| 0 <= j < order@.len() ==> order@[j] < list@.len(),
            arr == arrange(list@, order@),
            f == image_lines(kind, a@, b@),
            k <= order@.len(),
            out@ == old(out)@ + concat_map(arr.take(k as int), f),
        decreases order@.len() - k,
    {
        push_image_line(out, kind, a, b, &list[order[k]]);
        proof {
            lemma_concat_map_step(arr, f, k as int);
            assert(arr[k as int] == list@[order@[k as int] as int]);
            assert(out@ =~= old(out)@ + concat_map(arr.take(k + 1), f));
        }
        k = k + 1;
    }
    proof {
        assert(arr.take(order@.len() as int) =~= arr);
    }
}

fn push_kind_lines(out: &mut String, list: &Vec<ResourceEntry>, kind: EntryLine, a: &str, b: &str)
    ensures
        final(out)@ == old(out)@ + concat_map(sorted_entries(list@), entry_lines(kind, a@, b@)),
{
    let order = sorted_order(&names_of(list));
    push_entry_lines(out, list, &order, kind, a, b);
}

fn push_images_lines(out: &mut String, list: &Vec<ImageEntry>, kind: ImageLine, a: &str, b: &str)
    ensures
        final(out)@ == old(out)@ + concat_map(sorted_image_entries(list@), image_lines(kind, a@, b@)),
{
    let order = sorted_order(&image_names_of(list));
    push_image_lines(out, list, &order, kind, a, b);
}

fn preamble_text(format: TexFormat, engine: TexEngine) -> (r: String)
    ensures
        r@ == preamble(format, engine),
{
    let mut out = String::new();
    match format {
        TexFormat::Standalone => out.append("\\documentclass[crop]{standalone}\n"),
        TexFormat::Article => out.append("\\documentclass{article}\n"),
        TexFormat::Snippet => {},
    }
    let ghost class = out@;
    match format {
        TexFormat::Snippet => {
            out.append("\\RequirePackage{iftex}\n\\RequirePackage{graphicx}\n\\RequirePackage{calc}\n");
            out.append("\\makeatletter\n\\newif\\ifsvgpdfmode\n\\@ifundefined{pdfoutput}{\\svgpdfmodefalse}{%\n  \\ifnum\\pdfoutput>0 \\svgpdfmodetrue\\else\\svgpdfmodefalse\\fi\n}\n\\makeatother\n");
        },
        _ => match engine {
            TexEngine::Auto => {
                out.append("\\usepackage{iftex}\n\\usepackage{graphicx}\n\\usepackage{calc}\n");
                out.append("\\makeatletter\n\\newif\\ifsvgpdfmode\n\\@ifundefined{pdfoutput}{\\svgpdfmodefalse}{%\n  \\ifnum\\pdfoutput>0 \\svgpdfmodetrue\\else\\svgpdfmodefalse\\fi\n}\n\\makeatother\n");
            },
            TexEngine::PdfTeX | TexEngine::LuaTeX => {
                out.append("\\usepackage{graphicx}\n\\usepackage{calc}\n");
            },
            _ => {
                out.append("\\usepackage{graphicx}\n");
            },
        },
    }
    out.push('\n');
    proof {
        reveal_strlit("");
        assert(out@ =~= preamble(format, engine));
    }
    out
}

fn definitions_block_text(engine: TexEngine, pdftex: &str, lua: &str, dvi: &str) -> (r: String)
    ensures
        r@ == definitions_block(engine, pdftex@, lua@, dvi@),
{
    let mut out = String::new();
    if !pdftex.is_empty() || !lua.is_empty() || !dvi.is_empty() {
        out.append("% PDF Resource Definitions\n");
        match engine {
            TexEngine::Auto => {
                out.append("\\ifsvgpdfmode\n  \\ifpdftex\n");
                out.append(pdftex);
                out.append("  \\else\\ifluatex\n");
                out.append(lua);
                out.append("  \\else\n");
                out.append(dvi);
                out.append("  \\fi\\fi\n\\else\n");
                out.append(dvi);
                out.append("\\fi\n");
            },
            TexEngine::PdfTeX => out.append(pdftex),
            TexEngine::LuaTeX => out.append(lua),
            _ => out.append(dvi),
        }
        out.push('\n');
    }
    proof {
        assert(out@ =~= definitions_block(engine, pdftex@, lua@, dvi@));
    }
    out
}

fn push_expanded(out: &mut String, command: &str, body: &str, close: &str)
    ensures
        final(out)@ == old(out)@ + expanded_resources(command@, body@, close@),
{
    if !body.is_empty() {
        out.append(command);
        out.append(body);
        out.append(close);
    }
    proof {
        assert(final(out)@ =~= old(out)@ + expanded_resources(command@, body@, close@));
    }
}

fn page_resources_block_text(engine: TexEngine, pdf: &str, dvi: &str) -> (r: String)
    ensures
        r@ == page_resources_block(engine, pdf@, dvi@),
{
    let mut out = String::new();
    if !pdf.is_empty() || !dvi.is_empty() {
        out.append("% Add resources to page\n");
        match engine {
            TexEngine::Auto => {
                out.append("\\ifsvgpdfmode\n  \\ifpdftex\n");
                push_expanded(&mut out, "    \\pdfpageresources\\expanded{{\n", pdf, "    }}\n");
                out.append("  \\else\\ifluatex\n");
                push_expanded(&mut out, "    \\pdfvariable pageresources\\expanded{{\n", pdf, "    }}\n");
                out.append("  \\else\n");
                out.append(dvi);
                out.append("  \\fi\\fi\n\\else\n");
                out.append(dvi);
                out.append("\\fi\n");
            },
            TexEngine::PdfTeX => {
                push_expanded(&mut out, "\\pdfpageresources\\expanded{{\n", pdf, "}}\n");
            },
            TexEngine::LuaTeX => {
                push_expanded(&mut out, "\\pdfvariable pageresources\\expanded{{\n", pdf, "}}\n");
            },
            _ => out.append(dvi),
        }
        out.push('\n');
    }
    proof {
        reveal_strlit("");
        assert(out@ =~= page_resources_block(engine, pdf@, dvi@));
    }
    out
}

fn push_literal(out: &mut String, kind: u8, indent: &str, ops: &str)
    requires
        kind < 3,
    ensures
        final(out)@ == old(out)@ + if kind == 0 {
            pdftex_literal(indent@, ops@)
        } else if kind == 1 {
            lua_literal(indent@, ops@)
        } else {
            dvi_literal(indent@, ops@)
        },
{
    out.append(indent);
    if kind == 0 {
        out.append("\\pdfliteral direct{");
    } else if kind == 1 {
        out.append("\\pdfextension literal direct{");
    } else {
        out.append("\\special{pdf:literal direct ");
    }
    out.append(ops);
    out.append("}%\n");
    proof {
        assert(final(out)@ =~= old(out)@ + if kind == 0 {
            pdftex_literal(indent@, ops@)
        } else if kind == 1 {
            lua_literal(indent@, ops@)
        } else {
            dvi_literal(indent@, ops@)
        });
    }
}

fn command_block_text(engine: TexEngine, ops: &str, width: &str, height: &str) -> (r: String)
    ensures
        r@ == command_block(engine, ops@, width@, height@),
{
    let mut out = String::new();
    out.append("% Definition of SVG Command\n");
    out.append("\\newcommand{\\mysvg}[1][1]{%");
    out.append("\n  \\scalebox{#1}{%\n    \\begin{picture}(");
    out.append(width);
    out.append(",");
    out.append(height);
    out.append(")%\n");
    let ghost head = out@;
    match engine {
        TexEngine::Auto => {
            out.append("      \\ifsvgpdfmode\n        \\ifpdftex\n");
            push_literal(&mut out, 0, "          ", ops);
            out.append("        \\else\\ifluatex\n");
            push_literal(&mut out, 1, "          ", ops);
            out.append("        \\else\n");
            push_literal(&mut out, 2, "          ", ops);
            out.append("        \\fi\\fi\n      \\else\n");
            push_literal(&mut out, 2, "        ", ops);
            out.append("      \\fi\n");
        },
        TexEngine::PdfTeX => push_literal(&mut out, 0, "      ", ops),
        TexEngine::LuaTeX => push_literal(&mut out, 1, "      ", ops),
        _ => push_literal(&mut out, 2, "      ", ops),
    }
    out.append("    \\end{picture}%\n  }%\n}\n\n");
    proof {
        assert(out@ =~= command_block(engine, ops@, width@, height@));
    }
    out
}

fn document_body_text(format: TexFormat) -> (r: String)
    ensures
        r@ == document_body(format),
{
    let mut out = String::new();
    match format {
        TexFormat::Snippet => {},
        _ => out.append("\\begin{document}\n\n\\mysvg\n\n\\end{document}\n"),
    }
    proof {
        assert(out@ =~= document_body(format));
    }
    out
}

impl PdfConverter {
    fn tex_resource_defs(&self, reserve: &str, last: &str, use_obj: &str) -> (r: String)
        ensures
            r@ == tex_resource_defs(self.resources@, reserve@, last@, use_obj@),
    {
        let res = &self.resources;
        let mut out = String::new();
        push_kind_lines(&mut out, res.function_entries(), EntryLine::Reserve, reserve, last);
        proof {
            assert(out@ =~= concat_map(
                sorted_entries(self.resources@.functions),
                entry_lines(EntryLine::Reserve, reserve@, last@),
            ));
        }
        push_kind_lines(&mut out, res.shading_entries(), EntryLine::Reserve, reserve, last);
        push_kind_lines(&mut out, res.form_entries(), EntryLine::Reserve, reserve, last);
        push_kind_lines(&mut out, res.pattern_entries(), EntryLine::Reserve, reserve, last);
        push_kind_lines(&mut out, res.ext_gstate_entries(), EntryLine::Reserve, reserve, last);
        push_images_lines(&mut out, res.image_entries(), ImageLine::Reserve, reserve, last);
        push_kind_lines(&mut out, res.function_entries(), EntryLine::UseObj, use_obj, "");
        push_kind_lines(&mut out, res.shading_entries(), EntryLine::UseObj, use_obj, "");
        push_kind_lines(&mut out, res.form_entries(), EntryLine::UseStream, use_obj, "");
        push_kind_lines(&mut out, res.pattern_entries(), EntryLine::UseStream, use_obj, "");
        push_kind_lines(&mut out, res.ext_gstate_entries(), EntryLine::UseObj, use_obj, "");
        push_images_lines(&mut out, res.image_entries(), ImageLine::TexObject, use_obj, "");
        proof {
            reveal_strlit("");
            assert(""@ == Seq::<char>::empty());
        }
        out
    }

    /// Object reservations and definitions for pdfTeX.
    pub fn generate_pdftex_resource_defs(&self) -> (r: String)
        ensures
            r@ == pdftex_resource_defs(self.resources@),
    {
        self.tex_resource_defs(
            "\\pdfobj reserveobjnum\n",
            "{\\the\\pdflastobj}\n",
            "\\immediate\\pdfobj useobjnum ",
        )
    }

    /// Object reservations and definitions for LuaTeX.
    pub fn generate_lua_resource_defs(&self) -> (r: String)
        ensures
            r@ == lua_resource_defs(self.resources@),
    {
        self.tex_resource_defs(
            "\\pdfextension obj reserveobjnum\n",
            "{\\the\\numexpr\\pdffeedback lastobj\\relax}\n",
            "\\immediate\\pdfextension obj useobjnum ",
        )
    }

    /// Named object definitions for the DVI backend.
    pub fn generate_dvi_resource_defs(&self) -> (r: String)
        ensures
            r@ == dvi_resource_defs(self.resources@),
    {
        let res = &self.resources;
        let mut out = String::new();
        push_kind_lines(&mut out, res.function_entries(), EntryLine::DviObj, "", "");
        proof {
            reveal_strlit("");
            assert(""@ == Seq::<char>::empty());
            assert(out@ =~= concat_map(
                sorted_entries(self.resources@.functions),
                entry_lines(EntryLine::DviObj, Seq::empty(), Seq::empty()),
            ));
        }
        push_kind_lines(&mut out, res.shading_entries(), EntryLine::DviShading, "", "");
        push_kind_lines(&mut out, res.form_entries(), EntryLine::DviStream, "", "");
        push_kind_lines(&mut out, res.pattern_entries(), EntryLine::DviStream, "", "");
        push_kind_lines(&mut out, res.ext_gstate_entries(), EntryLine::DviObj, "", "");
        push_images_lines(&mut out, res.image_entries(), ImageLine::DviObject, "", "");
        out
    }

    /// The page resource dictionary entries for pdfTeX/LuaTeX, one line per
    /// kind of object that is present.
    pub fn build_pdf_page_resources(&self) -> (r: String)
        ensures
            r@ == pdf_page_resources(self.resources@),
    {
        let mut sections: Vec<String> = Vec::new();
        push_section(&mut sections, "  /ExtGState<<", &Self::kind_ref_items(self.resources.ext_gstate_entries(), false), ">>\n");
        push_section(&mut sections, "  /Shading<<", &Self::kind_ref_items(self.resources.shading_entries(), false), ">>\n");
        push_section(&mut sections, "  /Pattern<<", &Self::kind_ref_items(self.resources.pattern_entries(), false), ">>\n");
        push_section(&mut sections, "  /XObject<<", &self.xobject_ref_items(false), ">>\n");
        let r = concat_strings(sections.as_slice());
        proof {
            assert(views(sections@) =~= opt_section("  /ExtGState<<"@, ref_items(sorted_entry_names(self.resources@.ext_gstates), false), ">>\n"@)
                + opt_section("  /Shading<<"@, ref_items(sorted_entry_names(self.resources@.shadings), false), ">>\n"@)
                + opt_section("  /Pattern<<"@, ref_items(sorted_entry_names(self.resources@.patterns), false), ">>\n"@)
                + opt_section("  /XObject<<"@, xobject_items(self.resources@, false), ">>\n"@));
        }
        r
    }

    /// The page resources for the DVI backend: one `pdf:put` special with the
    /// resource dictionary, or nothing when no object is registered.
    pub fn generate_dvi_page_resources(&self) -> (r: String)
        ensures
            r@ == dvi_page_resources(self.resources@),
    {
        let dict = self.inline_dvi_resource_dict(true);
        if dict.as_str().is_empty() {
            String::new()
        } else {
            let mut r = String::new();
            r.append("\\special{pdf:put @resources ");
            r.append(dict.as_str());
            r.append("}\n");
            r
        }
    }

    fn image_object(&self, kind: ImageLine, a: &str, img_name: &str, resource: &ImageResource) -> (r: String)
        ensures
            r@ == image_object_lines(kind, a@, Seq::empty(), img_name@, *resource),
    {
        let mut out = String::new();
        push_smask_part(&mut out, kind, a, "", resource);
        push_image_part(&mut out, kind, a, "", img_name, resource);
        proof {
            reveal_strlit("");
            assert(out@ =~= image_object_lines(kind, a@, Seq::empty(), img_name@, *resource));
        }
        out
    }

    /// The image object definitions for pdfTeX (soft mask first).
    pub fn generate_pdftex_image_object(&self, img_name: &str, resource: &ImageResource) -> (r: String)
        ensures
            r@ == image_object_lines(ImageLine::TexObject, "\\immediate\\pdfobj useobjnum "@, Seq::empty(), img_name@, *resource),
    {
        self.image_object(ImageLine::TexObject, "\\immediate\\pdfobj useobjnum ", img_name, resource)
    }

    /// The image object definitions for LuaTeX (soft mask first).
    pub fn generate_lua_image_object(&self, img_name: &str, resource: &ImageResource) -> (r: String)
        ensures
            r@ == image_object_lines(ImageLine::TexObject, "\\immediate\\pdfextension obj useobjnum "@, Seq::empty(), img_name@, *resource),
    {
        self.image_object(ImageLine::TexObject, "\\immediate\\pdfextension obj useobjnum ", img_name, resource)
    }

    /// The image stream definitions for the DVI backend (soft mask first).
    pub fn generate_dvi_image_object(&self, img_name: &str, resource: &ImageResource) -> (r: String)
        ensures
            r@ == image_object_lines(ImageLine::DviObject, Seq::empty(), Seq::empty(), img_name@, *resource),
    {
        let r = self.image_object(ImageLine::DviObject, "", img_name, resource);
        proof {
            reveal_strlit("");
            assert(""@ == Seq::<char>::empty());
        }
        r
    }

    /// The complete TeX output: preamble, object definitions and page
    /// resources for the engine, the `\mysvg` command holding the page's PDF
    /// operators in a picture of `width` by `height` (numbers already written
    /// out), and the document body for complete documents.
    pub fn generate_latex(&self, width: &str, height: &str) -> (r: String)
        ensures
            r@ == latex_document(self.tex_format, self.engine, self.resources@, self.pdf_ops@, width@, height@),
    {
        let mut output = preamble_text(self.tex_format, self.engine);
        let pdftex_resource_defs = self.generate_pdftex_resource_defs();
        let luatex_resource_defs = self.generate_lua_resource_defs();
        let dvi_resource_defs = self.generate_dvi_resource_defs();
        let defs = definitions_block_text(
            self.engine,
            pdftex_resource_defs.as_str(),
            luatex_resource_defs.as_str(),
            dvi_resource_defs.as_str(),
        );
        output.append(defs.as_str());
        let pdf_page_resources = self.build_pdf_page_resources();
        let dvi_page_resources = self.generate_dvi_page_resources();
        let page = page_resources_block_text(
            self.engine,
            pdf_page_resources.as_str(),
            dvi_page_resources.as_str(),
        );
        output.append(page.as_str());
        let command = command_block_text(self.engine, self.pdf_ops.as_str(), width, height);
        output.append(command.as_str());
        let body = document_body_text(self.tex_format);
        output.append(body.as_str());
        output
    }
}


// ---------------------------------------------------------------------------
// The output depends only on which objects are registered
// ---------------------------------------------------------------------------

pub open spec fn entry_name_key() -> spec_fn(ResourceEntry) -> Seq<char> {
    |e: ResourceEntry| e.name@
}

pub open spec fn image_name_key() -> spec_fn(ImageEntry) -> Seq<char> {
    |e: ImageEntry| e.name@
}

/// Every kind of `r1` holds the same objects as the matching kind of `r2`,
/// in whatever order they were registered.
pub open spec fn same_objects(r1: ResourcesView, r2: ResourcesView) -> bool {
    &&& forall|e: ResourceEntry| r1.ext_gstates.contains(e) <==> r2.ext_gstates.contains(e)
    &&& forall|e: ResourceEntry| r1.functions.contains(e) <==> r2.functions.contains(e)
    &&& forall|e: ResourceEntry| r1.shadings.contains(e) <==> r2.shadings.contains(e)
    &&& forall|e: ResourceEntry| r1.forms.contains(e) <==> r2.forms.contains(e)
    &&& forall|e: ResourceEntry| r1.patterns.contains(e) <==> r2.patterns.contains(e)
    &&& forall|e: ImageEntry| r1.images.contains(e) <==> r2.images.contains(e)
}

/// The objects of each kind have distinct names, and each kind holds no
/// more objects than a vector can.
pub open spec fn names_distinct(r: ResourcesView) -> bool {
    &&& keys_distinct(r.ext_gstates, entry_name_key()) && r.ext_gstates.len() <= usize::MAX
    &&& keys_distinct(r.functions, entry_name_key()) && r.functions.len() <= usize::MAX
    &&& keys_distinct(r.shadings, entry_name_key()) && r.shadings.len() <= usize::MAX
    &&& keys_distinct(r.forms, entry_name_key()) && r.forms.len() <= usize::MAX
    &&& keys_distinct(r.patterns, entry_name_key()) && r.patterns.len() <= usize::MAX
    &&& keys_distinct(r.images, image_name_key()) && r.images.len() <= usize::MAX
}

/// The emitted order of one kind, and its names, depend only on which
/// entries it holds.
proof fn lemma_kind_canonical(l1: Seq<ResourceEntry>, l2: Seq<ResourceEntry>)
    requires
        l1.len() <= usize::MAX,
        l2.len() <= usize::MAX,
        keys_distinct(l1, entry_name_key()),
        keys_distinct(l2, entry_name_key()),
        forall|e: ResourceEntry| l1.contains(e) <==> l2.contains(e),
    ensures
        sorted_entries(l1) == sorted_entries(l2),
        sorted_entry_names(l1) == sorted_entry_names(l2),
{
    let k = entry_name_key();
    assert(entry_names(l1) =~= l1.map_values(k));
    assert(entry_names(l2) =~= l2.map_values(k));
    lemma_sorted_by_key_canonical(l1, l2, k);
    assert(sorted_entries(l1) == sorted_by_key(l1, k));
    assert(sorted_entries(l2) == sorted_by_key(l2, k));
    let s = sorted_entries(l1);
    assert(sorted_entry_names(l1) =~= s.map_values(k)) by {
        let o = order_by_key(entry_names(l1));
        lemma_order_by_key_bounds(entry_names(l1));
        assert forall|i: int| 0 <= i < o.len() implies sorted_keys(entry_names(l1))[i] == s[i].name@ by {
            assert(s[i] == l1[o[i] as int]);
        }
    }
    assert(sorted_entry_names(l2) =~= s.map_values(k)) by {
        let o = order_by_key(entry_names(l2));
        lemma_order_by_key_bounds(entry_names(l2));
        assert forall|i: int| 0 <= i < o.len() implies sorted_keys(entry_names(l2))[i] == s[i].name@ by {
            assert(s[i] == l2[o[i] as int]);
        }
    }
}

/// The same for the images.
proof fn lemma_images_canonical(l1: Seq<ImageEntry>, l2: Seq<ImageEntry>)
    requires
        l1.len() <= usize::MAX,
        l2.len() <= usize::MAX,
        keys_distinct(l1, image_name_key()),
        keys_distinct(l2, image_name_key()),
        forall|e: ImageEntry| l1.contains(e) <==> l2.contains(e),
    ensures
        sorted_image_entries(l1) == sorted_image_entries(l2),
        sorted_keys(image_names(l1)) == sorted_keys(image_names(l2)),
{
    let k = image_name_key();
    assert(image_names(l1) =~= l1.map_values(k));
    assert(image_names(l2) =~= l2.map_values(k));
    lemma_sorted_by_key_canonical(l1, l2, k);
    assert(sorted_image_entries(l1) == sorted_by_key(l1, k));
    assert(sorted_image_entries(l2) == sorted_by_key(l2, k));
    let s = sorted_image_entries(l1);
    assert(sorted_keys(image_names(l1)) =~= s.map_values(k)) by {
        let o = order_by_key(image_names(l1));
        lemma_order_by_key_bounds(image_names(l1));
        assert forall|i: int| 0 <= i < o.len() implies sorted_keys(image_names(l1))[i] == s[i].name@ by {
            assert(s[i] == l1[o[i] as int]);
        }
    }
    assert(sorted_keys(image_names(l2)) =~= s.map_values(k)) by {
        let o = order_by_key(image_names(l2));
        lemma_order_by_key_bounds(image_names(l2));
        assert forall|i: int| 0 <= i < o.len() implies sorted_keys(image_names(l2))[i] == s[i].name@ by {
            assert(s[i] == l2[o[i] as int]);
        }
    }
}

/// The TeX output depends only on which objects are registered, never on the
/// order in which they were registered: two registries that hold the same
/// objects, with distinct names within each kind, give the same document
/// (and the same definitions and page resources) for the same page.
pub proof fn lemma_output_independent_of_registration_order(
    r1: ResourcesView,
    r2: ResourcesView,
    format: TexFormat,
    engine: TexEngine,
    ops: Seq<char>,
    width: Seq<char>,
    height: Seq<char>,
)
    requires
        names_distinct(r1),
        names_distinct(r2),
        same_objects(r1, r2),
    ensures
        pdftex_resource_defs(r1) == pdftex_resource_defs(r2),
        lua_resource_defs(r1) == lua_resource_defs(r2),
        dvi_resource_defs(r1) == dvi_resource_defs(r2),
        pdf_page_resources(r1) == pdf_page_resources(r2),
        dvi_page_resources(r1) == dvi_page_resources(r2),
        latex_document(format, engine, r1, ops, width, height) == latex_document(format, engine, r2, ops, width, height),
{
    lemma_kind_canonical(r1.ext_gstates, r2.ext_gstates);
    lemma_kind_canonical(r1.functions, r2.functions);
    lemma_kind_canonical(r1.shadings, r2.shadings);
    lemma_kind_canonical(r1.forms, r2.forms);
    lemma_kind_canonical(r1.patterns, r2.patterns);
    lemma_images_canonical(r1.images, r2.images);
    assert(xobject_items(r1, true) == xobject_items(r2, true));
    assert(xobject_items(r1, false) == xobject_items(r2, false));
    assert(super::resources::inline_resource_dict(r1, true, true) == super::resources::inline_resource_dict(r2, true, true));
}


// ---------------------------------------------------------------------------
// The TeX output wraps the plain output
// ---------------------------------------------------------------------------

/// `t` occurs in `s`.
pub open spec fn occurs_in(t: Seq<char>, s: Seq<char>) -> bool {
    exists|pre: Seq<char>, post: Seq<char>| s == #[trigger] (pre + t + post)
}

/// The literal command through which `engine` writes the operators `ops`
/// (for the automatic engine, the one of the DVI backend, which it always
/// holds).
pub open spec fn literal_command(engine: TexEngine, ops: Seq<char>) -> Seq<char> {
    match engine {
        TexEngine::PdfTeX => "\\pdfliteral direct{"@ + ops + "}%\n"@,
        TexEngine::LuaTeX => "\\pdfextension literal direct{"@ + ops + "}%\n"@,
        _ => "\\special{pdf:literal direct "@ + ops + "}%\n"@,
    }
}

/// What occurs in `c` occurs in `x + c + y`.
pub proof fn lemma_occurs_in_context(t: Seq<char>, c: Seq<char>, x: Seq<char>, y: Seq<char>)
    requires
        occurs_in(t, c),
    ensures
        occurs_in(t, x + c + y),
{
    let (pre, post) = choose|pre: Seq<char>, post: Seq<char>| c == #[trigger] (pre + t + post);
    assert(x + c + y =~= (x + pre) + t + (post + y));
}

/// The `\mysvg` block holds its definition line and the engine's literal
/// command around the operators.
proof fn lemma_command_block_parts(engine: TexEngine, ops: Seq<char>, width: Seq<char>, height: Seq<char>)
    ensures
        occurs_in(literal_command(engine, ops), command_block(engine, ops, width, height)),
        occurs_in(mysvg_definition(), command_block(engine, ops, width, height)),
{
    let c = command_block(engine, ops, width, height);
    let head = "% Definition of SVG Command\n"@;
    let rest = "\n  \\scalebox{#1}{%\n    \\begin{picture}("@ + width + ","@ + height + ")%\n"@;
    let tail = "    \\end{picture}%\n  }%\n}\n\n"@;
    let lit = literal_command(engine, ops);
    match engine {
        TexEngine::Auto => {
            let bpre = "      \\ifsvgpdfmode\n        \\ifpdftex\n"@ + pdftex_literal("          "@, ops)
                + "        \\else\\ifluatex\n"@ + lua_literal("          "@, ops) + "        \\else\n"@
                + "          "@;
            let bpost = "        \\fi\\fi\n      \\else\n"@ + dvi_literal("        "@, ops) + "      \\fi\n"@;
            assert(c =~= head + mysvg_definition() + (rest + bpre + lit + bpost + tail));
            assert(c =~= (head + mysvg_definition() + rest + bpre) + lit + (bpost + tail));
        },
        TexEngine::PdfTeX => {
            assert(c =~= head + mysvg_definition() + (rest + "      "@ + lit + tail));
            assert(c =~= (head + mysvg_definition() + rest + "      "@) + lit + tail);
        },
        TexEngine::LuaTeX => {
            assert(c =~= head + mysvg_definition() + (rest + "      "@ + lit + tail));
            assert(c =~= (head + mysvg_definition() + rest + "      "@) + lit + tail);
        },
        _ => {
            assert(c =~= head + mysvg_definition() + (rest + "      "@ + lit + tail));
            assert(c =~= (head + mysvg_definition() + rest + "      "@) + lit + tail);
        },
    }
}

/// The TeX output wraps the plain output: for every format and engine the
/// document defines the `\mysvg` command and holds the page's operators (the
/// plain output, `generate_pdf_literal`) unchanged inside the engine's
/// literal command.
pub proof fn lemma_tex_output_wraps_plain_output(
    format: TexFormat,
    engine: TexEngine,
    r: ResourcesView,
    ops: Seq<char>,
    width: Seq<char>,
    height: Seq<char>,
)
    ensures
        occurs_in(literal_command(engine, ops), latex_document(format, engine, r, ops, width, height)),
        occurs_in(mysvg_definition(), latex_document(format, engine, r, ops, width, height)),
{
    let before = preamble(format, engine) + definitions_block(
        engine,
        pdftex_resource_defs(r),
        lua_resource_defs(r),
        dvi_resource_defs(r),
    ) + page_resources_block(engine, pdf_page_resources(r), dvi_page_resources(r));
    let c = command_block(engine, ops, width, height);
    let after = document_body(format);
    assert(latex_document(format, engine, r, ops, width, height) == before + c + after);
    lemma_command_block_parts(engine, ops, width, height);
    lemma_occurs_in_context(literal_command(engine, ops), c, before, after);
    lemma_occurs_in_context(mysvg_definition(), c, before, after);
}


// ---------------------------------------------------------------------------
// Every registered object is listed in the page resources
// ---------------------------------------------------------------------------

/// Each part of a joined list occurs in it.
pub proof fn lemma_occurs_in_join(parts: Seq<Seq<char>>, sep: Seq<char>, k: int)
    requires
        0 <= k < parts.len(),
    ensures
        occurs_in(parts[k], join(parts, sep)),
    decreases parts.len(),
{
    if parts.len() == 1 {
        assert(join(parts, sep) =~= Seq::<char>::empty() + parts[k] + Seq::<char>::empty());
    } else if k == parts.len() - 1 {
        assert(join(parts, sep) =~= (join(parts.drop_last(), sep) + sep) + parts[k] + Seq::<char>::empty());
    } else {
        lemma_occurs_in_join(parts.drop_last(), sep, k);
        assert(parts.drop_last()[k] == parts[k]);
        lemma_occurs_in_context(parts[k], join(parts.drop_last(), sep), Seq::empty(), sep + parts.last());
        assert(join(parts, sep) =~= Seq::<char>::empty() + join(parts.drop_last(), sep) + (sep + parts.last()));
    }
}

/// Concatenating two lists of strings concatenates their concatenations.
pub proof fn lemma_concat_all_append(a: Seq<Seq<char>>, b: Seq<Seq<char>>)
    ensures
        concat_all(a + b) == concat_all(a) + concat_all(b),
    decreases b.len(),
{
    if b.len() == 0 {
        assert(a + b =~= a);
        assert(concat_all(a) + concat_all(b) =~= concat_all(a));
    } else {
        lemma_concat_all_append(a, b.drop_last());
        assert((a + b).drop_last() =~= a + b.drop_last());
        assert(concat_all(a) + concat_all(b) =~= concat_all(a) + concat_all(b.drop_last()) + b.last());
    }
}

/// The `/Shading` section of the pdfTeX/LuaTeX page resources.
pub open spec fn pdf_shading_section(r: ResourcesView) -> Seq<char> {
    "  /Shading<<"@ + join(ref_items(sorted_entry_names(r.shadings), false), " "@) + ">>\n"@
}

/// The shading at position `i` is referred to in the shading section.
proof fn lemma_shading_in_section(r: ResourcesView, i: int)
    requires
        r.shadings.len() <= usize::MAX,
        0 <= i < r.shadings.len(),
    ensures
        occurs_in(pdf_ref_item(r.shadings[i].name@), pdf_shading_section(r)),
        ref_items(sorted_entry_names(r.shadings), false).len() > 0,
{
    let name = r.shadings[i].name@;
    let en = entry_names(r.shadings);
    assert(en[i] == name);
    assert(en.contains(name));
    lemma_sorted_keys_complete(en);
    let names = sorted_entry_names(r.shadings);
    assert(names.contains(name));
    let j = choose|j: int| 0 <= j < names.len() && names[j] == name;
    let items = ref_items(names, false);
    assert(items[j] == pdf_ref_item(name));
    lemma_occurs_in_join(items, " "@, j);
    lemma_occurs_in_context(pdf_ref_item(name), join(items, " "@), "  /Shading<<"@, ">>\n"@);
}

/// With some shading registered, the page resources hold the shading section.
proof fn lemma_section_in_page(r: ResourcesView)
    requires
        ref_items(sorted_entry_names(r.shadings), false).len() > 0,
    ensures
        exists|x: Seq<char>, y: Seq<char>| pdf_page_resources(r) == #[trigger] (x + pdf_shading_section(r) + y),
{
    let section = pdf_shading_section(r);
    let a = opt_section("  /ExtGState<<"@, ref_items(sorted_entry_names(r.ext_gstates), false), ">>\n"@);
    let b = seq![section];
    let c = opt_section("  /Pattern<<"@, ref_items(sorted_entry_names(r.patterns), false), ">>\n"@);
    let d = opt_section("  /XObject<<"@, xobject_items(r, false), ">>\n"@);
    assert(opt_section("  /Shading<<"@, ref_items(sorted_entry_names(r.shadings), false), ">>\n"@) == b);
    assert(pdf_page_resources(r) == concat_all(a + b + c + d));
    lemma_concat_all_append(a + b + c, d);
    lemma_concat_all_append(a + b, c);
    lemma_concat_all_append(a, b);
    assert(concat_all(b) =~= section) by {
        assert(b.drop_last() =~= Seq::<Seq<char>>::empty());
        assert(concat_all(b.drop_last()) =~= Seq::<char>::empty());
        assert(b.last() == section);
        assert(concat_all(b) == concat_all(b.drop_last()) + b.last());
    }
    assert(pdf_page_resources(r) =~= concat_all(a) + section + (concat_all(c) + concat_all(d)));
}

/// The pdfTeX/LuaTeX page resources list every registered shading: they hold
/// a `/Shading` section, and the reference to each shading's object, which
/// the page's `sh` operators need.
pub proof fn lemma_page_resources_list_every_shading(r: ResourcesView, i: int)
    requires
        r.shadings.len() <= usize::MAX,
        0 <= i < r.shadings.len(),
    ensures
        occurs_in("  /Shading<<"@, pdf_page_resources(r)),
        occurs_in(pdf_ref_item(r.shadings[i].name@), pdf_page_resources(r)),
{
    lemma_shading_in_section(r, i);
    lemma_section_in_page(r);
    let section = pdf_shading_section(r);
    let (x, y) = choose|x: Seq<char>, y: Seq<char>| pdf_page_resources(r) == #[trigger] (x + section + y);
    lemma_occurs_in_context(pdf_ref_item(r.shadings[i].name@), section, x, y);
    let rest = join(ref_items(sorted_entry_names(r.shadings), false), " "@) + ">>\n"@;
    assert(section =~= Seq::<char>::empty() + "  /Shading<<"@ + rest);
    lemma_occurs_in_context("  /Shading<<"@, section, x, y);
}

/// A section holds its opening and a reference to each of its names.
proof fn lemma_listed_in_section(open: Seq<char>, items: Seq<Seq<char>>, close: Seq<char>, k: int)
    requires
        0 <= k < items.len(),
    ensures
        concat_all(opt_section(open, items, close)) == open + join(items, " "@) + close,
        occurs_in(items[k], concat_all(opt_section(open, items, close))),
        occurs_in(open, concat_all(opt_section(open, items, close))),
{
    let section = open + join(items, " "@) + close;
    let b = opt_section(open, items, close);
    assert(b == seq![section]);
    assert(b.drop_last() =~= Seq::<Seq<char>>::empty());
    assert(concat_all(b.drop_last()) =~= Seq::<char>::empty());
    assert(concat_all(b) =~= section);
    lemma_occurs_in_join(items, " "@, k);
    lemma_occurs_in_context(items[k], join(items, " "@), open, close);
    assert(section =~= Seq::<char>::empty() + open + (join(items, " "@) + close));
}

/// The page resources are their four sections one after the other.
proof fn lemma_page_sections(r: ResourcesView)
    ensures
        pdf_page_resources(r) == concat_all(
            opt_section("  /ExtGState<<"@, ref_items(sorted_entry_names(r.ext_gstates), false), ">>\n"@),
        ) + concat_all(opt_section("  /Shading<<"@, ref_items(sorted_entry_names(r.shadings), false), ">>\n"@))
            + concat_all(opt_section("  /Pattern<<"@, ref_items(sorted_entry_names(r.patterns), false), ">>\n"@))
            + concat_all(opt_section("  /XObject<<"@, xobject_items(r, false), ">>\n"@)),
{
    let a = opt_section("  /ExtGState<<"@, ref_items(sorted_entry_names(r.ext_gstates), false), ">>\n"@);
    let b = opt_section("  /Shading<<"@, ref_items(sorted_entry_names(r.shadings), false), ">>\n"@);
    let c = opt_section("  /Pattern<<"@, ref_items(sorted_entry_names(r.patterns), false), ">>\n"@);
    let d = opt_section("  /XObject<<"@, xobject_items(r, false), ">>\n"@);
    lemma_concat_all_append(a + b + c, d);
    lemma_concat_all_append(a + b, c);
    lemma_concat_all_append(a, b);
}

/// The reference to an entry of a kind is among the items of its section.
proof fn lemma_entry_item(list: Seq<ResourceEntry>, i: int) -> (j: int)
    requires
        list.len() <= usize::MAX,
        0 <= i < list.len(),
    ensures
        0 <= j < ref_items(sorted_entry_names(list), false).len(),
        ref_items(sorted_entry_names(list), false)[j] == pdf_ref_item(list[i].name@),
{
    let en = entry_names(list);
    assert(en[i] == list[i].name@);
    assert(en.contains(list[i].name@));
    lemma_sorted_keys_complete(en);
    let names = sorted_entry_names(list);
    assert(names.contains(list[i].name@));
    choose|j: int| 0 <= j < names.len() && names[j] == list[i].name@
}

/// The reference to an image is among the XObject items.
proof fn lemma_image_item(r: ResourcesView, i: int) -> (j: int)
    requires
        r.images.len() <= usize::MAX,
        0 <= i < r.images.len(),
    ensures
        0 <= j < xobject_items(r, false).len(),
        xobject_items(r, false)[j] == pdf_ref_item(r.images[i].name@),
{
    let n = image_names(r.images);
    assert(n[i] == r.images[i].name@);
    assert(n.contains(r.images[i].name@));
    lemma_sorted_keys_complete(n);
    let names = sorted_keys(n);
    assert(names.contains(r.images[i].name@));
    let j = choose|j: int| 0 <= j < names.len() && names[j] == r.images[i].name@;
    assert(xobject_items(r, false)[j] == ref_items(names, false)[j]);
    j
}

/// The pdfTeX/LuaTeX page resources list every registered object that a page
/// can use: each graphics state in the `/ExtGState` section, each pattern in
/// the `/Pattern` section, and each image and form in the `/XObject`
/// section, each by a reference to its object.
pub proof fn lemma_page_resources_list_every_object(r: ResourcesView)
    requires
        r.ext_gstates.len() <= usize::MAX,
        r.patterns.len() <= usize::MAX,
        r.forms.len() <= usize::MAX,
        r.images.len() <= usize::MAX,
    ensures
        forall|i: int| 0 <= i < r.ext_gstates.len() ==> occurs_in("  /ExtGState<<"@, pdf_page_resources(r))
            && occurs_in(pdf_ref_item(#[trigger] r.ext_gstates[i].name@), pdf_page_resources(r)),
        forall|i: int| 0 <= i < r.patterns.len() ==> occurs_in("  /Pattern<<"@, pdf_page_resources(r))
            && occurs_in(pdf_ref_item(#[trigger] r.patterns[i].name@), pdf_page_resources(r)),
        forall|i: int| 0 <= i < r.forms.len() ==> occurs_in("  /XObject<<"@, pdf_page_resources(r))
            && occurs_in(pdf_ref_item(#[trigger] r.forms[i].name@), pdf_page_resources(r)),
        forall|i: int| 0 <= i < r.images.len() ==> occurs_in("  /XObject<<"@, pdf_page_resources(r))
            && occurs_in(pdf_ref_item(#[trigger] r.images[i].name@), pdf_page_resources(r)),
{
    let a = concat_all(opt_section("  /ExtGState<<"@, ref_items(sorted_entry_names(r.ext_gstates), false), ">>\n"@));
    let b = concat_all(opt_section("  /Shading<<"@, ref_items(sorted_entry_names(r.shadings), false), ">>\n"@));
    let c = concat_all(opt_section("  /Pattern<<"@, ref_items(sorted_entry_names(r.patterns), false), ">>\n"@));
    let d = concat_all(opt_section("  /XObject<<"@, xobject_items(r, false), ">>\n"@));
    let p = pdf_page_resources(r);
    lemma_page_sections(r);
    assert forall|i: int| 0 <= i < r.ext_gstates.len() implies occurs_in("  /ExtGState<<"@, p)
        && occurs_in(pdf_ref_item(#[trigger] r.ext_gstates[i].name@), p) by {
        let j = lemma_entry_item(r.ext_gstates, i);
        let items = ref_items(sorted_entry_names(r.ext_gstates), false);
        lemma_listed_in_section("  /ExtGState<<"@, items, ">>\n"@, j);
        assert(p =~= Seq::<char>::empty() + a + (b + c + d));
        lemma_occurs_in_context(items[j], a, Seq::empty(), b + c + d);
        lemma_occurs_in_context("  /ExtGState<<"@, a, Seq::empty(), b + c + d);
    }
    assert forall|i: int| 0 <= i < r.patterns.len() implies occurs_in("  /Pattern<<"@, p)
        && occurs_in(pdf_ref_item(#[trigger] r.patterns[i].name@), p) by {
        let j = lemma_entry_item(r.patterns, i);
        let items = ref_items(sorted_entry_names(r.patterns), false);
        lemma_listed_in_section("  /Pattern<<"@, items, ">>\n"@, j);
        assert(p =~= (a + b) + c + d);
        lemma_occurs_in_context(items[j], c, a + b, d);
        lemma_occurs_in_context("  /Pattern<<"@, c, a + b, d);
    }
    assert forall|i: int| 0 <= i < r.images.len() implies occurs_in("  /XObject<<"@, p)
        && occurs_in(pdf_ref_item(#[trigger] r.images[i].name@), p) by {
        let j = lemma_image_item(r, i);
        let items = xobject_items(r, false);
        lemma_listed_in_section("  /XObject<<"@, items, ">>\n"@, j);
        assert(p =~= (a + b + c) + d + Seq::<char>::empty());
        lemma_occurs_in_context(items[j], d, a + b + c, Seq::empty());
        lemma_occurs_in_context("  /XObject<<"@, d, a + b + c, Seq::empty());
    }
    assert forall|i: int| 0 <= i < r.forms.len() implies occurs_in("  /XObject<<"@, p)
        && occurs_in(pdf_ref_item(#[trigger] r.forms[i].name@), p) by {
        let j0 = lemma_entry_item(r.forms, i);
        let imgs = ref_items(sorted_keys(image_names(r.images)), false);
        let fitems = ref_items(sorted_entry_names(r.forms), false);
        let items = xobject_items(r, false);
        let j = imgs.len() + j0;
        assert(items[j] == fitems[j0]);
        lemma_listed_in_section("  /XObject<<"@, items, ">>\n"@, j);
        assert(p =~= (a + b + c) + d + Seq::<char>::empty());
        lemma_occurs_in_context(items[j], d, a + b + c, Seq::empty());
        lemma_occurs_in_context("  /XObject<<"@, d, a + b + c, Seq::empty());
    }
}

} // verus!
