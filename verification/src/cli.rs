//! The command line's own rules: how flag values read as booleans, and
//! what `validate` and `compile` report about the diagnostics of a file.
//! Reading files and printing are the caller's.

use vstd::prelude::*;
use crate::ast::{Croniqfile, Item};
use crate::text::{chars_of, decimal, lower, lower_chars, push_decimal, push_str};
use crate::validate::{Diagnostic, Severity};

verus! {

/// The server the remote commands talk to unless told otherwise.
pub const DEFAULT_SERVER_URL: &'static str = "http://localhost:4000";

/// How a flag value reads as a boolean, trimmed and ASCII lower-cased:
/// `1`, `true`, `yes`, `on` are true; `0`, `false`, `no`, `off` and the
/// empty value are false; anything else is refused.
pub open spec fn spec_parse_truthy(s: Seq<char>) -> Result<bool, Seq<char>> {
    let t = lower(crate::convert::trim(s));
    if t == "1"@ || t == "true"@ || t == "yes"@ || t == "on"@ {
        Ok(true)
    } else if t == "0"@ || t == "false"@ || t == "no"@ || t == "off"@ || t.len() == 0 {
        Ok(false)
    } else {
        Err("expected 1/true/yes/on or 0/false/no/off, got '"@ + t + "'"@)
    }
}

/// Read a flag or environment value such as `CRONIQ_DEMO_MFA=1` as a
/// boolean.
pub fn parse_truthy(s: &str) -> (r: Result<bool, String>)
    ensures
        match r {
            Ok(b) => spec_parse_truthy(s@) == Ok::<bool, Seq<char>>(b),
            Err(e) => spec_parse_truthy(s@) == Err::<bool, Seq<char>>(e@),
        },
{
    let cs = chars_of(s);
    let t = crate::convert::trim_chars(cs.as_slice());
    let l = lower_chars(t.as_slice());
    let v = l.as_slice();
    if crate::text::chars_is(v, "1") || crate::text::chars_is(v, "true") || crate::text::chars_is(v, "yes")
        || crate::text::chars_is(v, "on") {
        Ok(true)
    } else if crate::text::chars_is(v, "0") || crate::text::chars_is(v, "false") || crate::text::chars_is(
        v,
        "no",
    ) || crate::text::chars_is(v, "off") || l.len() == 0 {
        Ok(false)
    } else {
        let mut e = String::new();
        push_str(&mut e, "expected 1/true/yes/on or 0/false/no/off, got '");
        crate::text::push_chars(&mut e, v);
        push_str(&mut e, "'");
        Err(e)
    }
}

/// The number of jobs among the first `n` items.
pub open spec fn jobs_in(items: Seq<Item>, n: int) -> nat
    decreases n,
{
    if n <= 0 {
        0
    } else {
        jobs_in(items, n - 1) + if items[n - 1] is Job {
            1nat
        } else {
            0nat
        }
    }
}

/// The number of jobs a file declares.
pub fn count_jobs(ast: &Croniqfile) -> (n: usize)
    ensures
        n == jobs_in(ast.items@, ast.items@.len() as int),
{
    let mut n: usize = 0;
    let mut i: usize = 0;
    while i < ast.items.len()
        invariant
            i <= ast.items@.len(),
            n == jobs_in(ast.items@, i as int),
            n <= i,
        decreases ast.items@.len() - i,
    {
        if let Item::Job(_) = &ast.items[i] {
            n = n + 1;
        }
        i = i + 1;
    }
    n
}

/// A diagnostic as a report line: `error: ` or `warning: ` and its message.
pub open spec fn diag_line(d: Diagnostic) -> Seq<char> {
    (if d.severity == Severity::Error {
        "error: "@
    } else {
        "warning: "@
    }) + d.message@ + "\n"@
}

/// The first `n` diagnostics as report lines.
pub open spec fn diag_lines(ds: Seq<Diagnostic>, n: int) -> Seq<char>
    decreases n,
{
    if n <= 0 {
        Seq::empty()
    } else {
        diag_lines(ds, n - 1) + diag_line(ds[n - 1])
    }
}

/// The number of errors among the first `n` diagnostics.
pub open spec fn errors_in(ds: Seq<Diagnostic>, n: int) -> nat
    decreases n,
{
    if n <= 0 {
        0
    } else {
        errors_in(ds, n - 1) + if ds[n - 1].severity == Severity::Error {
            1nat
        } else {
            0nat
        }
    }
}

/// The report lines of all diagnostics and the number of errors.
fn report_lines(diags: &[Diagnostic]) -> (r: (String, usize))
    ensures
        r.0@ == diag_lines(diags@, diags@.len() as int),
        r.1 == errors_in(diags@, diags@.len() as int),
        r.1 <= diags@.len(),
{
    let mut s = String::new();
    let mut errors: usize = 0;
    let mut i: usize = 0;
    while i < diags.len()
        invariant
            i <= diags@.len(),
            s@ == diag_lines(diags@, i as int),
            errors == errors_in(diags@, i as int),
            errors <= i,
        decreases diags@.len() - i,
    {
        let d = &diags[i];
        let ghost before = s@;
        if d.severity == Severity::Error {
            errors = errors + 1;
            push_str(&mut s, "error: ");
        } else {
            push_str(&mut s, "warning: ");
        }
        push_str(&mut s, d.message.as_str());
        push_str(&mut s, "\n");
        assert(s@ =~= before + diag_line(*d));
        i = i + 1;
    }
    (s, errors)
}

/// What `croniq validate` reports: each diagnostic, then a count of errors
/// and warnings when there are errors, of warnings when there are only
/// warnings, and otherwise that the file is fine with its job count.
pub open spec fn validation_report_text(ds: Seq<Diagnostic>, jobs: nat) -> Seq<char> {
    let e = errors_in(ds, ds.len() as int);
    let w = (ds.len() - e) as nat;
    diag_lines(ds, ds.len() as int) + if e > 0 {
        "\n"@ + decimal(e) + " error(s), "@ + decimal(w) + " warning(s)\n"@
    } else if w > 0 {
        "\n"@ + decimal(w) + " warning(s)\n"@
    } else {
        "ok: "@ + decimal(jobs) + " job(s), 0 errors\n"@
    }
}

/// The report of `croniq validate` for a file with `jobs` jobs, and whether
/// it failed (some diagnostic is an error).
pub fn validation_report(diags: &[Diagnostic], jobs: usize) -> (r: (String, bool))
    ensures
        r.0@ == validation_report_text(diags@, jobs as nat),
        r.1 == (errors_in(diags@, diags@.len() as int) > 0),
{
    let (mut s, errors) = report_lines(diags);
    let warnings = diags.len() - errors;
    if errors > 0 {
        push_str(&mut s, "\n");
        push_decimal(&mut s, errors as u64);
        push_str(&mut s, " error(s), ");
        push_decimal(&mut s, warnings as u64);
        push_str(&mut s, " warning(s)\n");
    } else if warnings > 0 {
        push_str(&mut s, "\n");
        push_decimal(&mut s, warnings as u64);
        push_str(&mut s, " warning(s)\n");
    } else {
        push_str(&mut s, "ok: ");
        push_decimal(&mut s, jobs as u64);
        push_str(&mut s, " job(s), 0 errors\n");
    }
    assert(s@ =~= validation_report_text(diags@, jobs as nat));
    (s, errors > 0)
}

/// What `croniq compile` reports before compiling: each diagnostic, and,
/// when some is an error, that nothing was compiled.
pub open spec fn compile_gate_text(ds: Seq<Diagnostic>) -> Seq<char> {
    let e = errors_in(ds, ds.len() as int);
    diag_lines(ds, ds.len() as int) + if e > 0 {
        "\n"@ + decimal(e) + " error(s) — nothing compiled. Run `croniq validate` for the full list.\n"@
    } else {
        Seq::empty()
    }
}

/// The report of `croniq compile` on the diagnostics, and whether the file
/// may be compiled (no diagnostic is an error).
pub fn compile_gate(diags: &[Diagnostic]) -> (r: (String, bool))
    ensures
        r.0@ == compile_gate_text(diags@),
        r.1 == (errors_in(diags@, diags@.len() as int) == 0),
{
    let (mut s, errors) = report_lines(diags);
    if errors > 0 {
        push_str(&mut s, "\n");
        push_decimal(&mut s, errors as u64);
        push_str(&mut s, " error(s) — nothing compiled. Run `croniq validate` for the full list.\n");
    }
    assert(s@ =~= compile_gate_text(diags@));
    (s, errors == 0)
}

} // verus!
