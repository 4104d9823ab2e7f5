//! The decisions of a conversion run that depend on the analysis and the
//! options: font diagnostics, the strict-fonts and strict-features policies,
//! and the messages that accompany them.

use vstd::prelude::*;

use crate::text::{join, join_strings, views};
use crate::validation::{requirement_summary, requirement_views, RequirementView, TextFontRequirement};

verus! {

/// The summaries of the requests, in order.
pub open spec fn summaries(reqs: Seq<RequirementView>) -> Seq<Seq<char>> {
    reqs.map_values(|r: RequirementView| requirement_summary(r))
}

/// The warning printed when text depends on the host's fonts.
pub open spec fn system_fonts_warning_text(reqs: Seq<RequirementView>) -> Seq<char> {
    "Warning: Text conversion currently depends on system fonts. Requested text fonts: "@ + (if reqs.len() == 0 {
        "(none)"@
    } else {
        join(summaries(reqs), "; "@)
    }) + ". Use --no-system-fonts together with --font-file/--font-dir and explicit default font families for reproducible output."@
}

/// The refusal when `--strict-fonts` is given without `--no-system-fonts`.
pub open spec fn strict_fonts_needs_no_system_fonts() -> Seq<char> {
    "--strict-fonts requires --no-system-fonts so text rendering does not depend on host font discovery."@
}

/// The refusal when named fonts are missing under `--strict-fonts`.
pub open spec fn missing_fonts_error(missing: Seq<Seq<char>>) -> Seq<char> {
    "Missing named fonts required by SVG text: "@ + join(missing, ", "@)
        + ". Load them with --font-file/--font-dir or change the default font families."@
}

/// The warning when named fonts are missing without `--strict-fonts`.
pub open spec fn missing_fonts_warning(missing: Seq<Seq<char>>) -> Seq<char> {
    "Warning: Some named fonts requested by SVG text were not found in the loaded font database: "@
        + join(missing, ", "@) + ". Fallback shaping may change layout."@
}

/// The refusal of unsupported features under `--strict`.
pub open spec fn strict_features_error(features: Seq<Seq<char>>) -> Seq<char> {
    "Unsupported SVG features detected: "@ + join(features, ", "@)
        + ". Re-run without --strict to rasterize only the unsupported subtrees."@
}

/// The note that unsupported subtrees will be rasterized.
pub open spec fn hybrid_rendering_info(features: Seq<Seq<char>>) -> Seq<char> {
    "Info: Hybrid rendering enabled for unsupported SVG features: "@ + join(features, ", "@)
}

/// The note that the whole document is rasterized after the vector
/// conversion failed with `error`.
pub open spec fn full_raster_info(error: Seq<char>) -> Seq<char> {
    "Info: Hybrid rendering failed ("@ + error + "); falling back to full-document rasterization."@
}

/// The lines of the font report.
pub open spec fn font_report(reqs: Seq<RequirementView>) -> Seq<Seq<char>> {
    if reqs.len() == 0 {
        seq!["Info: No text font requirements were detected."@]
    } else {
        seq!["Text font requirements:"@] + summaries(reqs).map_values(|s: Seq<char>| "  - "@ + s)
    }
}

/// The warning printed when text rendering depends on the host's fonts, with
/// the summary of every font request (or `(none)`).
pub fn system_fonts_warning(requirements: &Vec<TextFontRequirement>) -> (r: String)
    ensures
        r@ == system_fonts_warning_text(requirement_views(requirements@)),
{
    let mut requested: Vec<String> = Vec::new();
    let mut i: usize = 0;
    while i < requirements.len()
        invariant
            i <= requirements@.len(),
            views(requested@) == summaries(requirement_views(requirements@)).take(i as int),
        decreases requirements@.len() - i,
    {
        let s = requirements[i].summary();
        let ghost before = requested@;
        requested.push(s);
        proof {
            assert(views(requested@) =~= views(before).push(s@));
            assert(summaries(requirement_views(requirements@)).take(i + 1) =~= summaries(
                requirement_views(requirements@),
            ).take(i as int).push(requirement_summary(requirements@[i as int]@)));
        }
        i = i + 1;
    }
    proof {
        assert(summaries(requirement_views(requirements@)).take(i as int) =~= summaries(
            requirement_views(requirements@),
        ));
    }
    let mut r = String::new();
    r.append("Warning: Text conversion currently depends on system fonts. Requested text fonts: ");
    if requested.len() == 0 {
        r.append("(none)");
    } else {
        let joined = join_strings(requested.as_slice(), "; ");
        r.append(joined.as_str());
    }
    r.append(
        ". Use --no-system-fonts together with --font-file/--font-dir and explicit default font families for reproducible output.",
    );
    proof {
        assert(r@ =~= system_fonts_warning_text(requirement_views(requirements@)));
    }
    r
}

/// The font policy for documents with text: under `--strict-fonts`, text must
/// not depend on host fonts and every named family must be loaded (otherwise
/// the run fails with the message returned); without it, missing families only
/// give a warning, which is returned in `Ok`.
pub fn check_font_policy(strict_fonts: bool, no_system_fonts: bool, missing: &Vec<String>) -> (r: Result<Option<String>, String>)
    ensures
        strict_fonts && !no_system_fonts ==> (r matches Err(e) && e@ == strict_fonts_needs_no_system_fonts()),
        strict_fonts && no_system_fonts && missing@.len() > 0 ==> (r matches Err(e) && e@ == missing_fonts_error(views(missing@))),
        strict_fonts && no_system_fonts && missing@.len() == 0 ==> (r matches Ok(None)),
        !strict_fonts && missing@.len() > 0 ==> (r matches Ok(Some(w)) && w@ == missing_fonts_warning(views(missing@))),
        !strict_fonts && missing@.len() == 0 ==> (r matches Ok(None)),
{
    if strict_fonts {
        if !no_system_fonts {
            return Err(
                "--strict-fonts requires --no-system-fonts so text rendering does not depend on host font discovery.".to_owned(),
            );
        }
        if missing.len() > 0 {
            let mut e = String::new();
            e.append("Missing named fonts required by SVG text: ");
            let joined = join_strings(missing.as_slice(), ", ");
            e.append(joined.as_str());
            e.append(". Load them with --font-file/--font-dir or change the default font families.");
            proof {
                assert(e@ =~= missing_fonts_error(views(missing@)));
            }
            return Err(e);
        }
        Ok(None)
    } else if missing.len() > 0 {
        let mut w = String::new();
        w.append("Warning: Some named fonts requested by SVG text were not found in the loaded font database: ");
        let joined = join_strings(missing.as_slice(), ", ");
        w.append(joined.as_str());
        w.append(". Fallback shaping may change layout.");
        proof {
            assert(w@ =~= missing_fonts_warning(views(missing@)));
        }
        Ok(Some(w))
    } else {
        Ok(None)
    }
}

/// The policy for unsupported features: under `--strict` any of them fails the
/// run; otherwise they are rasterized and an informational note is returned.
pub fn check_unsupported_features(features: &Vec<String>, strict: bool) -> (r: Result<Option<String>, String>)
    ensures
        features@.len() > 0 && strict ==> (r matches Err(e) && e@ == strict_features_error(views(features@))),
        features@.len() > 0 && !strict ==> (r matches Ok(Some(m)) && m@ == hybrid_rendering_info(views(features@))),
        features@.len() == 0 ==> (r matches Ok(None)),
{
    if features.len() == 0 {
        return Ok(None);
    }
    let joined = join_strings(features.as_slice(), ", ");
    if strict {
        let mut e = String::new();
        e.append("Unsupported SVG features detected: ");
        e.append(joined.as_str());
        e.append(". Re-run without --strict to rasterize only the unsupported subtrees.");
        proof {
            assert(e@ =~= strict_features_error(views(features@)));
        }
        Err(e)
    } else {
        let mut m = String::new();
        m.append("Info: Hybrid rendering enabled for unsupported SVG features: ");
        m.append(joined.as_str());
        proof {
            assert(m@ =~= hybrid_rendering_info(views(features@)));
        }
        Ok(Some(m))
    }
}

/// What follows a failed vector conversion: when the document has
/// unsupported features, the whole document is rasterized (the note to print
/// is returned); otherwise the conversion's error stands.
pub fn after_failed_conversion(error: String, features: &Vec<String>) -> (r: Result<String, String>)
    ensures
        features@.len() > 0 ==> (r matches Ok(m) && m@ == full_raster_info(error@)),
        features@.len() == 0 ==> (r matches Err(e) && e@ == error@),
{
    if features.len() == 0 {
        return Err(error);
    }
    let mut m = String::new();
    m.append("Info: Hybrid rendering failed (");
    m.append(error.as_str());
    m.append("); falling back to full-document rasterization.");
    proof {
        assert(m@ =~= full_raster_info(error@));
    }
    Ok(m)
}

/// The lines that `--report-fonts` prints.
pub fn report_text_fonts(requirements: &Vec<TextFontRequirement>) -> (r: Vec<String>)
    ensures
        views(r@) == font_report(requirement_views(requirements@)),
{
    let mut lines: Vec<String> = Vec::new();
    if requirements.len() == 0 {
        lines.push("Info: No text font requirements were detected.".to_owned());
        proof {
            assert(views(lines@) =~= font_report(requirement_views(requirements@)));
        }
        return lines;
    }
    lines.push("Text font requirements:".to_owned());
    let ghost tail = summaries(requirement_views(requirements@)).map_values(|s: Seq<char>| "  - "@ + s);
    let mut i: usize = 0;
    while i < requirements.len()
        invariant
            tail == summaries(requirement_views(requirements@)).map_values(|s: Seq<char>| "  - "@ + s),
            i <= requirements@.len(),
            views(lines@) == seq!["Text font requirements:"@] + tail.take(i as int),
        decreases requirements@.len() - i,
    {
        let mut line = String::new();
        line.append("  - ");
        let s = requirements[i].summary();
        line.append(s.as_str());
        let ghost before = lines@;
        lines.push(line);
        proof {
            assert(views(lines@) =~= views(before).push(line@));
            assert(tail.take(i + 1) =~= tail.take(i as int).push(tail[i as int]));
        }
        i = i + 1;
    }
    proof {
        assert(tail.take(i as int) =~= tail);
    }
    lines
}

} // verus!
