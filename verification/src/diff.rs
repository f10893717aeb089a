//! Unified diff between two Croniqfile sources, and semantic equivalence of
//! two sources through the formatter.

use vstd::prelude::*;
use crate::ast::Croniqfile;
use crate::format::spec_format;
use crate::parser::{parse_fits, parse_refused, Parser};
use crate::text::str_eq;

verus! {

/// The unified-diff hunks (each with its `@@` header) that the `similar`
/// crate computes between two texts, line by line. The hunks are taken one
/// by one, so the `---`/`+++` file header that names the two sides is not
/// part of the text.
pub uninterp spec fn unified_line_diff(
    old: Seq<char>,
    new: Seq<char>,
    old_name: Seq<char>,
    new_name: Seq<char>,
) -> Seq<char>;

/// `similar::TextDiff::from_lines(old, new)`, its unified diff (with the
/// given header names set) rendered hunk after hunk through `iter_hunks`,
/// which writes no file header. Its text is the named result
/// `unified_line_diff` of the four arguments.
#[verifier::external_body]
fn unified_hunks(old: &str, new: &str, old_name: &str, new_name: &str) -> (r: String)
    ensures
        r@ == unified_line_diff(old@, new@, old_name@, new_name@),
{
    let diff = similar::TextDiff::from_lines(old, new);
    let mut output = String::new();
    for hunk in diff.unified_diff().header(old_name, new_name).iter_hunks() {
        output.push_str(&format!("{hunk}"));
    }
    output
}

/// Generate a unified diff between two Croniqfile sources.
pub fn diff(old: &str, new: &str, old_name: &str, new_name: &str) -> (s: String)
    ensures
        s@ == unified_line_diff(old@, new@, old_name@, new_name@),
{
    unified_hunks(old, new, old_name, new_name)
}

/// Whether two parsed files format to the same text.
pub fn same_formatting(a: &Croniqfile, b: &Croniqfile) -> (r: bool)
    ensures
        r == (spec_format(*a) == spec_format(*b)),
{
    let fa = crate::format::format(a);
    let fb = crate::format::format(b);
    str_eq(fa.as_str(), fb.as_str())
}

/// Returns true if two Croniqfile sources are semantically equivalent
/// (ignoring formatting differences): both parse, and both format to the
/// same text. A source that does not parse is equivalent to nothing.
pub fn is_equivalent(a: &str, b: &str) -> (r: bool)
    ensures
        r ==> exists|fa: Croniqfile, fb: Croniqfile| parse_fits(a@, fa) && parse_fits(b@, fb)
            && #[trigger] spec_format(fa) == #[trigger] spec_format(fb),
        !r ==> parse_refused(a@) || parse_refused(b@) || exists|fa: Croniqfile, fb: Croniqfile| parse_fits(a@, fa)
            && parse_fits(b@, fb) && #[trigger] spec_format(fa) != #[trigger] spec_format(fb),
{
    let ast_a = match Parser::parse(a) {
        Ok(ast) => ast,
        Err(_) => return false,
    };
    let ast_b = match Parser::parse(b) {
        Ok(ast) => ast,
        Err(_) => return false,
    };
    same_formatting(&ast_a, &ast_b)
}

} // verus!
