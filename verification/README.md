# svg2tex_rs

A verified core for the `svg2tex` command, which turns SVG artwork into PDF
literal operators or LaTeX source for pdfTeX, LuaTeX and the DVI-based
engines (XeTeX, pTeX, upTeX), or for all of them at once (`auto`).

## Layout

- `src/` — the library, verified with Verus:
  - `tex_engine.rs`, `tex_format.rs`: engine and document-format names;
  - `text.rs`: decimal and hex rendering, joining, the byte order of strings
    and a stable sort;
  - `converter/resources.rs`: interning of graphics states, functions,
    shadings, forms, patterns and images, and their name-ordered listing;
  - `converter/filter_graph.rs`: the form XObjects of native filter rendering;
  - `converter/filter_steps.rs`: filter primitives one after the other, with
    their inputs resolved (source graphic, source alpha, earlier results);
  - `converter/gradient.rs`: gradient shadings and their colour functions,
    gradient alpha forms and tiling patterns;
  - `converter/clip.rs`: whether a clip path is drawn as a soft mask;
  - `converter/latex.rs`, `converter/image.rs`, `converter/util.rs`: the TeX
    wrapper, image objects and object references;
  - `converter/filter.rs`, `converter/paint.rs`: which filters and gradients
    are drawn natively;
  - `validation.rs`: the analysis of the document (features that need a raster
    fallback, font requests, missing fonts);
  - `pipeline.rs`: the font and strict-mode policies and their messages;
  - `preprocess.rs`: rewriting clip paths that hold images into alpha masks.
- `app/` — the command: argument parsing, file I/O, and the traversal of the
  parsed document (its geometry is floating point), which hands every
  resource to the library.
- `tests/` — tests of the library.
