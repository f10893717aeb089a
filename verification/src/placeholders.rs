//! Placeholder resolution: `{$VAR}` / `{$VAR:default}` and `{env.VAR}`
//! from the environment, `{file.PATH}` from a file's trimmed contents,
//! `{vars.NAME}` from the file's `vars { }` table.
//!
//! The environment and the files are read by the caller; resolution works
//! on what the caller read (`HostInputs`).

use vstd::prelude::*;
use crate::convert::{trim, trim_chars};
use crate::text::{chars_of, push_str, str_eq, string_of, string_of_range};

verus! {

/// What the host reported: the environment variables that are set (with a
/// Unicode value), and the files that were read, with their contents or the
/// text of the read error.
pub struct HostInputs {
    pub env: Vec<(String, String)>,
    pub files: Vec<(String, Result<String, String>)>,
}

/// A placeholder that could not be resolved.
#[derive(Debug, Clone)]
pub enum PlaceholderError {
    Unresolved(String),
    FileRead(String, String),
    UnknownPrefix(String),
}

impl PlaceholderError {
    /// The error as text.
    pub fn message(&self) -> (s: String)
        ensures
            s@ == match *self {
                PlaceholderError::Unresolved(a) => "unresolved placeholder '"@ + a@ + "'"@,
                PlaceholderError::FileRead(a, b) => "cannot read file '"@ + a@ + "': "@ + b@,
                PlaceholderError::UnknownPrefix(a) => "unknown placeholder prefix: '"@ + a@ + "'"@,
            },
    {
        let mut s = String::new();
        match self {
            PlaceholderError::Unresolved(a) => {
                push_str(&mut s, "unresolved placeholder '");
                push_str(&mut s, a.as_str());
                push_str(&mut s, "'");
            },
            PlaceholderError::FileRead(a, b) => {
                push_str(&mut s, "cannot read file '");
                push_str(&mut s, a.as_str());
                push_str(&mut s, "': ");
                push_str(&mut s, b.as_str());
            },
            PlaceholderError::UnknownPrefix(a) => {
                push_str(&mut s, "unknown placeholder prefix: '");
                push_str(&mut s, a.as_str());
                push_str(&mut s, "'");
            },
        }
        s
    }
}

/// A placeholder error as plain values: which kind (0 unresolved, 1 file
/// read, 2 unknown prefix) and its texts.
pub open spec fn fault_view(e: PlaceholderError) -> (int, Seq<char>, Seq<char>) {
    match e {
        PlaceholderError::Unresolved(a) => (0, a@, Seq::empty()),
        PlaceholderError::FileRead(a, b) => (1, a@, b@),
        PlaceholderError::UnknownPrefix(a) => (2, a@, Seq::empty()),
    }
}

/// A list of `(name, value)` pairs as plain values.
pub open spec fn pairs_view(v: Seq<(String, String)>) -> Seq<(Seq<char>, Seq<char>)> {
    v.map_values(|p: (String, String)| (p.0@, p.1@))
}

/// The value of the first pair named `k`.
pub open spec fn lookup<V>(pairs: Seq<(Seq<char>, V)>, k: Seq<char>) -> Option<V>
    decreases pairs.len(),
{
    if pairs.len() == 0 {
        None
    } else if pairs[0].0 == k {
        Some(pairs[0].1)
    } else {
        lookup(pairs.drop_first(), k)
    }
}

/// The index of the first pair named `k`.
pub open spec fn index_of_key<V>(pairs: Seq<(Seq<char>, V)>, k: Seq<char>) -> Option<int>
    decreases pairs.len(),
{
    if pairs.len() == 0 {
        None
    } else if pairs[0].0 == k {
        Some(0)
    } else {
        match index_of_key(pairs.drop_first(), k) {
            Some(i) => Some(i + 1),
            None => None,
        }
    }
}

/// `(k, v)` put into a table: the value of the first pair named `k`
/// replaced, or the pair appended when there is none (a map insert).
pub open spec fn table_insert<V>(pairs: Seq<(Seq<char>, V)>, k: Seq<char>, v: V) -> Seq<(Seq<char>, V)> {
    match index_of_key(pairs, k) {
        Some(i) => pairs.update(i, (k, v)),
        None => pairs.push((k, v)),
    }
}

pub(crate) proof fn lemma_index_of_key<V>(pairs: Seq<(Seq<char>, V)>, k: Seq<char>)
    ensures
        match index_of_key(pairs, k) {
            Some(i) => 0 <= i < pairs.len() && pairs[i].0 == k && lookup(pairs, k) == Some(pairs[i].1)
                && forall|j: int| 0 <= j < i ==> pairs[j].0 != k,
            None => lookup(pairs, k) is None && forall|j: int| 0 <= j < pairs.len() ==> pairs[j].0 != k,
        },
    decreases pairs.len(),
{
    if pairs.len() > 0 && pairs[0].0 != k {
        lemma_index_of_key(pairs.drop_first(), k);
        match index_of_key(pairs.drop_first(), k) {
            Some(i) => {
                assert forall|j: int| 0 <= j < i + 1 implies pairs[j].0 != k by {
                    if j > 0 {
                        assert(pairs[j] == pairs.drop_first()[j - 1]);
                    }
                }
            },
            None => {
                assert forall|j: int| 0 <= j < pairs.len() implies pairs[j].0 != k by {
                    if j > 0 {
                        assert(pairs[j] == pairs.drop_first()[j - 1]);
                    }
                }
            },
        }
    }
}

/// Where the first pair named `k` stands.
pub fn find_key(pairs: &Vec<(String, String)>, k: &str) -> (r: Option<usize>)
    ensures
        match r {
            Some(i) => index_of_key(pairs_view(pairs@), k@) == Some(i as int),
            None => index_of_key(pairs_view(pairs@), k@) is None,
        },
{
    let ghost pv = pairs_view(pairs@);
    proof {
        lemma_index_of_key(pv, k@);
    }
    let mut i: usize = 0;
    while i < pairs.len()
        invariant
            i <= pairs@.len(),
            pv == pairs_view(pairs@),
            forall|j: int| 0 <= j < i ==> pv[j].0 != k@,
        decreases pairs@.len() - i,
    {
        if str_eq(pairs[i].0.as_str(), k) {
            proof {
                lemma_first_key_index(pv, k@, i as int);
            }
            return Some(i);
        }
        i = i + 1;
    }
    proof {
        lemma_index_of_key(pv, k@);
        if index_of_key(pv, k@) is Some {
            let j = index_of_key(pv, k@)->0;
            assert(pv[j].0 == k@);
        }
    }
    None
}

pub(crate) proof fn lemma_first_key_index<V>(pairs: Seq<(Seq<char>, V)>, k: Seq<char>, i: int)
    requires
        0 <= i < pairs.len(),
        pairs[i].0 == k,
        forall|j: int| 0 <= j < i ==> pairs[j].0 != k,
    ensures
        index_of_key(pairs, k) == Some(i),
    decreases i,
{
    if i > 0 {
        assert forall|j: int| 0 <= j < i - 1 implies pairs.drop_first()[j].0 != k by {
            assert(pairs.drop_first()[j] == pairs[j + 1]);
        }
        lemma_first_key_index(pairs.drop_first(), k, i - 1);
    }
}

/// The value of the first pair named `k`.
pub fn get_value<'a>(pairs: &'a Vec<(String, String)>, k: &str) -> (r: Option<&'a String>)
    ensures
        match r {
            Some(v) => lookup(pairs_view(pairs@), k@) == Some(v@),
            None => lookup(pairs_view(pairs@), k@) is None,
        },
{
    proof {
        lemma_index_of_key(pairs_view(pairs@), k@);
    }
    match find_key(pairs, k) {
        Some(i) => Some(&pairs[i].1),
        None => None,
    }
}

/// Puts `(k, v)` into a table with map semantics.
pub fn insert_pair(pairs: &mut Vec<(String, String)>, k: String, v: String)
    ensures
        pairs_view(final(pairs)@) == table_insert(pairs_view(old(pairs)@), k@, v@),
{
    let ghost kv = k@;
    let ghost vv = v@;
    proof {
        lemma_index_of_key(pairs_view(pairs@), k@);
    }
    match find_key(pairs, k.as_str()) {
        Some(i) => {
            pairs.set(i, (k, v));
            assert(pairs_view(pairs@) =~= pairs_view(old(pairs)@).update(i as int, (kv, vv)));
        },
        None => {
            pairs.push((k, v));
            assert(pairs_view(pairs@) =~= pairs_view(old(pairs)@).push((kv, vv)));
        },
    }
}

/// The files as plain values.
pub open spec fn files_view(v: Seq<(String, Result<String, String>)>) -> Seq<
    (Seq<char>, Result<Seq<char>, Seq<char>>),
> {
    v.map_values(
        |p: (String, Result<String, String>)|
            (p.0@, match p.1 {
                Ok(c) => Ok(c@),
                Err(e) => Err(e@),
            }),
    )
}

/// What was read from the first file entry for `path`.
pub open spec fn file_lookup(files: Seq<(Seq<char>, Result<Seq<char>, Seq<char>>)>, path: Seq<char>) -> Option<
    Result<Seq<char>, Seq<char>>,
>
    decreases files.len(),
{
    if files.len() == 0 {
        None
    } else if files[0].0 == path {
        Some(files[0].1)
    } else {
        file_lookup(files.drop_first(), path)
    }
}

/// The index of the first `c` in `s`.
pub open spec fn first_index_of(s: Seq<char>, c: char, i: int) -> Option<int>
    decreases s.len() - i,
{
    if i < 0 || i >= s.len() {
        None
    } else if s[i] == c {
        Some(i)
    } else {
        first_index_of(s, c, i + 1)
    }
}

/// `s` starts with the literal `p`.
pub open spec fn starts_with(s: Seq<char>, p: Seq<char>) -> bool {
    p.len() <= s.len() && s.take(p.len() as int) == p
}

/// The error text for a file the host did not read.
pub open spec fn not_read_text() -> Seq<char> {
    "file was not read"@
}

/// What a placeholder resolves to, given the vars table and what the host
/// reported.
pub open spec fn spec_resolve(p: Seq<char>, vars: Seq<(Seq<char>, Seq<char>)>, host: HostInputs) -> Result<
    Seq<char>,
    (int, Seq<char>, Seq<char>),
> {
    let env = pairs_view(host.env@);
    if p.len() > 0 && p[0] == '$' {
        let rest = p.drop_first();
        let (name, default) = match first_index_of(rest, ':', 0) {
            Some(i) => (rest.take(i), Some(rest.skip(i + 1))),
            None => (rest, None::<Seq<char>>),
        };
        match lookup(env, name) {
            Some(v) => Ok(v),
            None => match default {
                Some(d) => Ok(d),
                None => Err((0, seq!['$'] + name, Seq::empty())),
            },
        }
    } else if starts_with(p, "env."@) {
        let name = p.skip(4);
        match lookup(env, name) {
            Some(v) => Ok(v),
            None => Err((0, "env."@ + name, Seq::empty())),
        }
    } else if starts_with(p, "file."@) {
        let path = p.skip(5);
        match file_lookup(files_view(host.files@), path) {
            Some(Ok(c)) => Ok(trim(c)),
            Some(Err(m)) => Err((1, path, m)),
            None => Err((1, path, not_read_text())),
        }
    } else if starts_with(p, "vars."@) {
        let name = p.skip(5);
        match lookup(vars, name) {
            Some(v) => Ok(v),
            None => Err((0, "vars."@ + name, Seq::empty())),
        }
    } else {
        Err((2, p, Seq::empty()))
    }
}

/// What the host read for `path`.
fn read_file<'a>(host: &'a HostInputs, path: &str) -> (r: Option<&'a Result<String, String>>)
    ensures
        match r {
            Some(res) => file_lookup(files_view(host.files@), path@) == Some(
                match *res {
                    Ok(c) => Ok::<Seq<char>, Seq<char>>(c@),
                    Err(e) => Err(e@),
                },
            ),
            None => file_lookup(files_view(host.files@), path@) is None,
        },
{
    let ghost fv = files_view(host.files@);
    let mut i: usize = 0;
    assert(fv.skip(0) =~= fv);
    while i < host.files.len()
        invariant
            i <= host.files@.len(),
            fv == files_view(host.files@),
            file_lookup(fv, path@) == file_lookup(fv.skip(i as int), path@),
        decreases host.files@.len() - i,
    {
        assert(fv.skip(i as int)[0] == fv[i as int]);
        if str_eq(host.files[i].0.as_str(), path) {
            return Some(&host.files[i].1);
        }
        assert(fv.skip(i as int).drop_first() =~= fv.skip(i + 1));
        i = i + 1;
    }
    None
}

/// Where the first `c` of `s` stands.
fn find_char(s: &[char], c: char) -> (r: Option<usize>)
    ensures
        match r {
            Some(i) => first_index_of(s@, c, 0) == Some(i as int) && i < s@.len(),
            None => first_index_of(s@, c, 0) is None,
        },
{
    let mut i: usize = 0;
    while i < s.len()
        invariant
            i <= s@.len(),
            first_index_of(s@, c, 0) == first_index_of(s@, c, i as int),
        decreases s@.len() - i,
    {
        if s[i] == c {
            return Some(i);
        }
        i = i + 1;
    }
    None
}

/// Whether `s` starts with the literal `p`.
fn has_prefix(s: &[char], p: &str) -> (r: bool)
    ensures
        r == starts_with(s@, p@),
{
    let pc = chars_of(p);
    crate::text::chars_starts_with(s, pc.as_slice())
}

/// Resolve a placeholder (the text between the braces).
pub fn resolve(placeholder: &str, vars: &Vec<(String, String)>, host: &HostInputs) -> (r: Result<
    String,
    PlaceholderError,
>)
    ensures
        match (r, spec_resolve(placeholder@, pairs_view(vars@), *host)) {
            (Ok(v), Ok(w)) => v@ == w,
            (Err(e), Err(f)) => fault_view(e) == f,
            _ => false,
        },
{
    let p = chars_of(placeholder);
    let n = p.len();
    if n > 0 && p[0] == '$' {
        let rest = crate::text::slice_chars(p.as_slice(), 1, n);
        assert(rest@ =~= p@.drop_first());
        let (name, default): (String, Option<String>) = match find_char(rest.as_slice(), ':') {
            Some(c) => {
                let name = string_of_range(rest.as_slice(), 0, c);
                let d = string_of_range(rest.as_slice(), c + 1, rest.len());
                assert(name@ =~= rest@.take(c as int));
                assert(d@ =~= rest@.skip(c + 1));
                (name, Some(d))
            },
            None => {
                let name = string_of(rest.as_slice());
                (name, None)
            },
        };
        match get_value(&host.env, name.as_str()) {
            Some(v) => Ok(v.clone()),
            None => match default {
                Some(d) => Ok(d),
                None => {
                    let mut m = String::new();
                    push_str(&mut m, "$");
                    push_str(&mut m, name.as_str());
                    proof {
                        reveal_strlit("$");
                    }
                    Err(PlaceholderError::Unresolved(m))
                },
            },
        }
    } else if has_prefix(p.as_slice(), "env.") {
        proof {
            reveal_strlit("env.");
        }
        let name = string_of_range(p.as_slice(), 4, n);
        assert(name@ =~= p@.skip(4));
        match get_value(&host.env, name.as_str()) {
            Some(v) => Ok(v.clone()),
            None => {
                let mut m = String::new();
                push_str(&mut m, "env.");
                push_str(&mut m, name.as_str());
                Err(PlaceholderError::Unresolved(m))
            },
        }
    } else if has_prefix(p.as_slice(), "file.") {
        proof {
            reveal_strlit("file.");
        }
        let path = string_of_range(p.as_slice(), 5, n);
        assert(path@ =~= p@.skip(5));
        match read_file(host, path.as_str()) {
            Some(Ok(c)) => {
                let cs = chars_of(c.as_str());
                let t = trim_chars(cs.as_slice());
                Ok(string_of(t.as_slice()))
            },
            Some(Err(e)) => Err(PlaceholderError::FileRead(path, e.clone())),
            None => {
                let mut m = String::new();
                push_str(&mut m, "file was not read");
                Err(PlaceholderError::FileRead(path, m))
            },
        }
    } else if has_prefix(p.as_slice(), "vars.") {
        proof {
            reveal_strlit("vars.");
        }
        let name = string_of_range(p.as_slice(), 5, n);
        assert(name@ =~= p@.skip(5));
        match get_value(vars, name.as_str()) {
            Some(v) => Ok(v.clone()),
            None => {
                let mut m = String::new();
                push_str(&mut m, "vars.");
                push_str(&mut m, name.as_str());
                Err(PlaceholderError::Unresolved(m))
            },
        }
    } else {
        let mut m = String::new();
        push_str(&mut m, placeholder);
        Err(PlaceholderError::UnknownPrefix(m))
    }
}

} // verus!
