//! Where the JWT secret comes from: the `CRONIQ_JWT_SECRET` environment
//! variable, else `<data_dir>/jwt.secret`, else a freshly generated value
//! that is then written to that file. Reading the environment and the file
//! and writing the file are the caller's; the choice, and the reading of
//! the Windows account that the file is restricted to, are here.

use vstd::prelude::*;
use crate::auth::JwtSecretError;
use crate::convert::trim;
use crate::text::{chars_of, chars_starts_with, push_char, push_str, split_chars, string_of};

verus! {

/// The name of the environment variable that overrides the secret file.
pub const JWT_SECRET_ENV: &'static str = "CRONIQ_JWT_SECRET";

/// The name of the secret file inside the data directory.
pub const JWT_SECRET_FILE: &'static str = "jwt.secret";

/// The secret to use, given the environment variable's value and the
/// secret file's content when they could be read: the first of the two
/// that is not blank, trimmed; `None` when a new secret must be generated.
pub open spec fn spec_resolve_secret(env_value: Option<Seq<char>>, file_content: Option<Seq<char>>) -> Option<Seq<char>> {
    match env_value {
        Some(v) if trim(v).len() > 0 => Some(trim(v)),
        _ => match file_content {
            Some(f) if trim(f).len() > 0 => Some(trim(f)),
            _ => None,
        },
    }
}

/// An optional string slice as an optional character sequence.
pub open spec fn opt_text(s: Option<&str>) -> Option<Seq<char>> {
    match s {
        Some(t) => Some(t@),
        None => None,
    }
}

/// The trimmed text, if it is not blank.
fn trimmed_nonblank(s: &str) -> (r: Option<String>)
    ensures
        match r {
            Some(t) => trim(s@).len() > 0 && t@ == trim(s@),
            None => trim(s@).len() == 0,
        },
{
    let cs = chars_of(s);
    let t = crate::convert::trim_chars(cs.as_slice());
    if t.len() == 0 {
        None
    } else {
        Some(string_of(t.as_slice()))
    }
}

/// Choose the JWT secret from the environment variable and the secret
/// file, in that order, ignoring blank values; `None` when neither gives
/// one and a new secret must be generated and stored.
pub fn resolve_jwt_secret(env_value: Option<&str>, file_content: Option<&str>) -> (r: Option<String>)
    ensures
        match r {
            Some(s) => spec_resolve_secret(opt_text(env_value), opt_text(file_content)) == Some(s@),
            None => spec_resolve_secret(opt_text(env_value), opt_text(file_content)) is None,
        },
{
    if let Some(v) = env_value {
        if let Some(t) = trimmed_nonblank(v) {
            return Some(t);
        }
    }
    if let Some(f) = file_content {
        if let Some(t) = trimmed_nonblank(f) {
            return Some(t);
        }
    }
    None
}

/// `s` without any `"` at either end (`str::trim_matches('"')`).
pub open spec fn strip_quotes(s: Seq<char>) -> Seq<char>
    decreases s.len(),
{
    if s.len() > 0 && s[0] == '"' {
        strip_quotes(s.drop_first())
    } else if s.len() > 0 && s.last() == '"' {
        strip_quotes(s.drop_last())
    } else {
        s
    }
}

/// The account that `whoami /user /fo csv /nh` names, as `icacls` reads a
/// literal SID: `*` and the second comma-separated field, trimmed and
/// unquoted, when it is a SID (`S-1-…`).
pub open spec fn spec_whoami_principal(csv: Seq<char>) -> Option<Seq<char>> {
    let fields = crate::text::split_on(csv, ',');
    if fields.len() < 2 {
        None
    } else {
        let sid = strip_quotes(trim(fields[1]));
        if sid.len() >= 4 && sid.take(4) == "S-1-"@ {
            Some(seq!['*'] + sid)
        } else {
            None
        }
    }
}

/// `s` without `"` at either end.
fn strip_quotes_exec(s: &[char]) -> (r: Vec<char>)
    ensures
        r@ == strip_quotes(s@),
{
    let mut a: usize = 0;
    let mut b: usize = s.len();
    assert(s@.subrange(0, s@.len() as int) =~= s@);
    while a < b && (s[a] == '"' || s[b - 1] == '"')
        invariant
            a <= b <= s@.len(),
            strip_quotes(s@) == strip_quotes(s@.subrange(a as int, b as int)),
        decreases b - a,
    {
        let ghost cur = s@.subrange(a as int, b as int);
        if s[a] == '"' {
            assert(cur.drop_first() =~= s@.subrange(a + 1, b as int));
            a = a + 1;
        } else {
            assert(cur.drop_last() =~= s@.subrange(a as int, b - 1));
            b = b - 1;
        }
    }
    crate::text::slice_chars(s, a, b)
}

/// The `icacls` principal in the output of `whoami /user /fo csv /nh`, if
/// that output names a SID.
pub fn whoami_principal(csv: &str) -> (r: Option<String>)
    ensures
        match r {
            Some(p) => spec_whoami_principal(csv@) == Some(p@),
            None => spec_whoami_principal(csv@) is None,
        },
{
    let cs = chars_of(csv);
    let fields = split_chars(cs.as_slice(), ',');
    proof {
        crate::text::lemma_split_on_facts(csv@, ',');
    }
    if fields.len() < 2 {
        return None;
    }
    let t = crate::convert::trim_chars(fields[1].as_slice());
    let sid = strip_quotes_exec(t.as_slice());
    let prefix = chars_of("S-1-");
    proof {
        reveal_strlit("S-1-");
    }
    if !chars_starts_with(sid.as_slice(), prefix.as_slice()) {
        return None;
    }
    let mut p = String::new();
    push_char(&mut p, '*');
    crate::text::push_chars(&mut p, sid.as_slice());
    assert(p@ =~= seq!['*'] + sid@);
    Some(p)
}

/// The `icacls` principal when `whoami` could not name a SID: the
/// `USERNAME` value, qualified as `DOMAIN\user` when `USERDOMAIN` is not
/// blank; an error when there is no non-blank user name.
pub open spec fn spec_env_principal(user: Option<Seq<char>>, domain: Option<Seq<char>>) -> Result<Seq<char>, Seq<char>> {
    match user {
        Some(u) if trim(u).len() > 0 => match domain {
            Some(d) if trim(d).len() > 0 => Ok(d + seq!['\\'] + u),
            _ => Ok(u),
        },
        _ => Err(no_user_message()),
    }
}

/// The refusal when the Windows account cannot be determined.
pub open spec fn no_user_message() -> Seq<char> {
    "could not determine the current Windows user: `whoami /user` failed and USERNAME is unset, so the JWT secret's ACL cannot be set"@
}

/// The `icacls` principal from the `USERNAME` and `USERDOMAIN` values.
pub fn env_principal(user: Option<&str>, domain: Option<&str>) -> (r: Result<String, String>)
    ensures
        match r {
            Ok(p) => spec_env_principal(opt_text(user), opt_text(domain)) == Ok::<Seq<char>, Seq<char>>(p@),
            Err(e) => spec_env_principal(opt_text(user), opt_text(domain)) == Err::<Seq<char>, Seq<char>>(e@),
        },
{
    let user_ok = match user {
        Some(u) => trimmed_nonblank(u).is_some(),
        None => false,
    };
    if !user_ok {
        let mut e = String::new();
        push_str(
            &mut e,
            "could not determine the current Windows user: `whoami /user` failed and USERNAME is unset, so the JWT secret's ACL cannot be set",
        );
        return Err(e);
    }
    let u = user.unwrap();
    let domain_ok = match domain {
        Some(d) => trimmed_nonblank(d).is_some(),
        None => false,
    };
    let mut p = String::new();
    if domain_ok {
        let d = domain.unwrap();
        push_str(&mut p, d);
        push_char(&mut p, '\\');
        push_str(&mut p, u);
        assert(p@ =~= d@ + seq!['\\'] + u@);
    } else {
        push_str(&mut p, u);
    }
    Ok(p)
}

/// `io::Error`'s `Display` text; nothing is stated of it.
#[verifier::external_body]
fn io_error_text(e: &std::io::Error) -> String {
    e.to_string()
}

impl JwtSecretError {
    /// The error as text: the file-access failure and the system's reason.
    pub fn message(&self) -> (s: String)
        ensures
            "failed to access JWT secret file: "@.is_prefix_of(s@),
    {
        let mut s = String::new();
        push_str(&mut s, "failed to access JWT secret file: ");
        match self {
            JwtSecretError::Io(e) => {
                let t = io_error_text(e);
                push_str(&mut s, t.as_str());
            },
        }
        s
    }
}

} // verus!
