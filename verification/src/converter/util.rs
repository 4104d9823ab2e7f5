//! TeX-side names of reserved PDF objects.

use vstd::prelude::*;

use super::PdfConverter;

verus! {

/// The TeX control sequence that holds the object number of `name`.
pub open spec fn spec_tex_obj_macro(name: Seq<char>) -> Seq<char> {
    "\\csname svgobj@"@ + name + "\\endcsname"@
}

/// An indirect reference to the object `name`, written for TeX. The explicit
/// `\space` keeps the reference intact when it is expanded inside `\expanded`
/// resource dictionaries for pdfTeX and LuaTeX.
pub open spec fn spec_tex_obj_ref(name: Seq<char>) -> Seq<char> {
    spec_tex_obj_macro(name) + "\\space 0 R"@
}

/// Appends the TeX control sequence that holds the object number of `name`.
pub fn push_tex_obj_macro(out: &mut String, name: &str)
    ensures
        final(out)@ == old(out)@ + spec_tex_obj_macro(name@),
{
    out.append("\\csname svgobj@");
    out.append(name);
    out.append("\\endcsname");
    proof {
        assert(final(out)@ =~= old(out)@ + spec_tex_obj_macro(name@));
    }
}

/// Appends a TeX-side indirect reference to the object `name`.
pub fn push_tex_obj_ref(out: &mut String, name: &str)
    ensures
        final(out)@ == old(out)@ + spec_tex_obj_ref(name@),
{
    push_tex_obj_macro(out, name);
    out.append("\\space 0 R");
    proof {
        assert(final(out)@ =~= old(out)@ + spec_tex_obj_ref(name@));
    }
}

impl PdfConverter {
    /// Returns the TeX macro name that stores a reserved PDF object number.
    pub fn tex_obj_macro(name: &str) -> (r: String)
        ensures
            r@ == spec_tex_obj_macro(name@),
    {
        let mut r = String::new();
        push_tex_obj_macro(&mut r, name);
        proof {
            assert(r@ =~= spec_tex_obj_macro(name@));
        }
        r
    }

    /// Returns a TeX-side indirect object reference.
    pub fn tex_obj_ref(name: &str) -> (r: String)
        ensures
            r@ == spec_tex_obj_ref(name@),
    {
        let mut r = String::new();
        push_tex_obj_ref(&mut r, name);
        proof {
            assert(r@ =~= spec_tex_obj_ref(name@));
        }
        r
    }
}

} // verus!
