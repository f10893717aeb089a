//! Import resolution: what an `import ./path` or `import ./glob/*.croniq`
//! directive expands to, once the host has expanded the pattern against the
//! file system. The files come back sorted, an empty expansion is an error,
//! and a file seen before (by its canonical path) is a circular import.

use vstd::prelude::*;
use crate::block_directives::char_lt;
use crate::text::{chars_of, push_str, split_chars, split_on, str_eq};

verus! {

/// A file that an import pattern matched: its path as the host reports it,
/// and its canonical path (the path itself where it cannot be resolved).
#[derive(Debug, Clone)]
pub struct ImportMatch {
    pub path: String,
    pub canonical: String,
}

/// What the host found when it expanded an import pattern (the base
/// directory joined with the import path).
#[derive(Debug, Clone)]
pub enum Expansion {
    /// The joined pattern is not valid Unicode.
    NotUnicode,
    /// The pattern is not a valid glob: the pattern and the error text.
    BadPattern(String, String),
    /// The regular files that match, in any order.
    Files(Vec<ImportMatch>),
}

/// Why an import could not be resolved.
#[derive(Debug, Clone)]
pub enum ImportError {
    InvalidPath(String),
    GlobError(String, String),
    NoMatches(String),
    CircularImport(String),
}

impl ImportError {
    /// The error as text.
    pub fn message(&self) -> (s: String)
        ensures
            s@ == match *self {
                ImportError::InvalidPath(p) => "invalid import path: '"@ + p@ + "'"@,
                ImportError::GlobError(p, e) => "glob error for '"@ + p@ + "': "@ + e@,
                ImportError::NoMatches(p) => "no files match import pattern '"@ + p@ + "'"@,
                ImportError::CircularImport(p) => "circular import detected: '"@ + p@ + "'"@,
            },
    {
        let mut s = String::new();
        match self {
            ImportError::InvalidPath(p) => {
                push_str(&mut s, "invalid import path: '");
                push_str(&mut s, p.as_str());
                push_str(&mut s, "'");
            },
            ImportError::GlobError(p, e) => {
                push_str(&mut s, "glob error for '");
                push_str(&mut s, p.as_str());
                push_str(&mut s, "': ");
                push_str(&mut s, e.as_str());
            },
            ImportError::NoMatches(p) => {
                push_str(&mut s, "no files match import pattern '");
                push_str(&mut s, p.as_str());
                push_str(&mut s, "'");
            },
            ImportError::CircularImport(p) => {
                push_str(&mut s, "circular import detected: '");
                push_str(&mut s, p.as_str());
                push_str(&mut s, "'");
            },
        }
        s
    }
}

/// `a` comes strictly before `b`, component list against component list.
pub open spec fn comps_lt(a: Seq<Seq<char>>, b: Seq<Seq<char>>) -> bool
    decreases a.len(),
{
    if a.len() == 0 {
        b.len() > 0
    } else if b.len() == 0 {
        false
    } else if a[0] != b[0] {
        char_lt(a[0], b[0])
    } else {
        comps_lt(a.drop_first(), b.drop_first())
    }
}

/// Path order: component by component, each compared character by
/// character.
pub open spec fn path_lt(a: Seq<char>, b: Seq<char>) -> bool {
    comps_lt(split_on(a, '/'), split_on(b, '/'))
}

/// A match as plain values: path and canonical path.
pub open spec fn match_view(m: ImportMatch) -> (Seq<char>, Seq<char>) {
    (m.path@, m.canonical@)
}

pub open spec fn matches_view(ms: Seq<ImportMatch>) -> Seq<(Seq<char>, Seq<char>)> {
    ms.map_values(|m: ImportMatch| match_view(m))
}

/// `x` inserted into the path-sorted `s` before the first entry not below it.
pub open spec fn insert_by_path(x: (Seq<char>, Seq<char>), s: Seq<(Seq<char>, Seq<char>)>) -> Seq<(Seq<char>, Seq<char>)>
    decreases s.len(),
{
    if s.len() == 0 {
        seq![x]
    } else if !path_lt(s[0].0, x.0) {
        seq![x] + s
    } else {
        seq![s[0]] + insert_by_path(x, s.drop_first())
    }
}

/// The matches in path order, equal paths in the order they came.
pub open spec fn sort_by_path(s: Seq<(Seq<char>, Seq<char>)>) -> Seq<(Seq<char>, Seq<char>)>
    decreases s.len(),
{
    if s.len() == 0 {
        Seq::empty()
    } else {
        insert_by_path(s.last(), sort_by_path(s.drop_last()))
    }
}

/// The first `n` sorted matches checked against the visited canonical
/// paths: each is added in turn, and the first one already there stops the
/// walk with its path.
pub open spec fn visit(ms: Seq<(Seq<char>, Seq<char>)>, n: int, visited: Seq<Seq<char>>) -> (Seq<Seq<char>>, Option<Seq<char>>)
    decreases n,
{
    if n <= 0 {
        (visited, None)
    } else {
        let (v, err) = visit(ms, n - 1, visited);
        if err is Some {
            (v, err)
        } else if v.contains(ms[n - 1].1) {
            (v, Some(ms[n - 1].0))
        } else {
            (v.push(ms[n - 1].1), None)
        }
    }
}

/// An import error as plain values: which kind (0 invalid path, 1 glob
/// error, 2 no matches, 3 circular import) and its texts.
pub open spec fn import_error_view(e: ImportError) -> (int, Seq<char>, Seq<char>) {
    match e {
        ImportError::InvalidPath(p) => (0, p@, Seq::empty()),
        ImportError::GlobError(p, m) => (1, p@, m@),
        ImportError::NoMatches(p) => (2, p@, Seq::empty()),
        ImportError::CircularImport(p) => (3, p@, Seq::empty()),
    }
}

/// What resolving an import gives, as plain values: the sorted paths, or
/// the error; and the visited canonical paths afterwards.
pub open spec fn spec_resolve_imports(import_path: Seq<char>, e: Expansion, visited: Seq<Seq<char>>) -> (
    Result<Seq<Seq<char>>, (int, Seq<char>, Seq<char>)>,
    Seq<Seq<char>>,
) {
    match e {
        Expansion::NotUnicode => (Err((0, import_path, Seq::empty())), visited),
        Expansion::BadPattern(p, m) => (Err((1, p@, m@)), visited),
        Expansion::Files(files) => {
            let sorted = sort_by_path(matches_view(files@));
            if sorted.len() == 0 {
                (Err((2, import_path, Seq::empty())), visited)
            } else {
                let (v, err) = visit(sorted, sorted.len() as int, visited);
                match err {
                    Some(p) => (Err((3, p, Seq::empty())), v),
                    None => (Ok(sorted.map_values(|m: (Seq<char>, Seq<char>)| m.0)), v),
                }
            }
        },
    }
}

/// Whether `a` comes strictly before `b` in character order.
fn chars_lt(a: &Vec<char>, b: &Vec<char>) -> (r: bool)
    ensures
        r == char_lt(a@, b@),
{
    let mut i: usize = 0;
    assert(a@.skip(0) =~= a@);
    assert(b@.skip(0) =~= b@);
    while i < a.len() && i < b.len() && a[i] == b[i]
        invariant
            i <= a@.len(),
            i <= b@.len(),
            char_lt(a@, b@) == char_lt(a@.skip(i as int), b@.skip(i as int)),
        decreases a@.len() - i,
    {
        assert(a@.skip(i as int).drop_first() =~= a@.skip(i + 1));
        assert(b@.skip(i as int).drop_first() =~= b@.skip(i + 1));
        i = i + 1;
    }
    if i == a.len() {
        i < b.len()
    } else if i == b.len() {
        false
    } else {
        a[i] < b[i]
    }
}

/// Whether two character vectors are equal.
fn chars_same(a: &Vec<char>, b: &Vec<char>) -> (r: bool)
    ensures
        r == (a@ == b@),
{
    crate::text::chars_eq(a.as_slice(), b.as_slice())
}

/// Whether path `a` comes strictly before path `b`.
fn path_before(a: &str, b: &str) -> (r: bool)
    ensures
        r == path_lt(a@, b@),
{
    let ac = chars_of(a);
    let bc = chars_of(b);
    let x = split_chars(ac.as_slice(), '/');
    let y = split_chars(bc.as_slice(), '/');
    let ghost xs = split_on(a@, '/');
    let ghost ys = split_on(b@, '/');
    let mut i: usize = 0;
    assert(xs.skip(0) =~= xs);
    assert(ys.skip(0) =~= ys);
    while i < x.len() && i < y.len() && chars_same(&x[i], &y[i])
        invariant
            i <= x@.len(),
            i <= y@.len(),
            x@.len() == xs.len(),
            y@.len() == ys.len(),
            forall|k: int| 0 <= k < x@.len() ==> #[trigger] x@[k]@ == xs[k],
            forall|k: int| 0 <= k < y@.len() ==> #[trigger] y@[k]@ == ys[k],
            comps_lt(xs, ys) == comps_lt(xs.skip(i as int), ys.skip(i as int)),
        decreases x@.len() - i,
    {
        assert(x@[i as int]@ == xs[i as int]);
        assert(y@[i as int]@ == ys[i as int]);
        assert(xs.skip(i as int).drop_first() =~= xs.skip(i + 1));
        assert(ys.skip(i as int).drop_first() =~= ys.skip(i + 1));
        i = i + 1;
    }
    if i == x.len() {
        i < y.len()
    } else if i == y.len() {
        false
    } else {
        assert(x@[i as int]@ == xs[i as int]);
        assert(y@[i as int]@ == ys[i as int]);
        chars_lt(&x[i], &y[i])
    }
}

/// Inserting at the first position whose entry is not below `x`.
proof fn lemma_insert_by_path_at(x: (Seq<char>, Seq<char>), s: Seq<(Seq<char>, Seq<char>)>, p: int)
    requires
        0 <= p <= s.len(),
        forall|j: int| 0 <= j < p ==> #[trigger] path_lt(s[j].0, x.0),
        p < s.len() ==> !path_lt(s[p].0, x.0),
    ensures
        insert_by_path(x, s) == s.insert(p, x),
    decreases s.len(),
{
    if s.len() == 0 {
        assert(s.insert(p, x) =~= seq![x]);
    } else if p == 0 {
        assert(s.insert(p, x) =~= seq![x] + s);
    } else {
        lemma_insert_by_path_at(x, s.drop_first(), p - 1);
        assert(s.insert(p, x) =~= seq![s[0]] + s.drop_first().insert(p - 1, x));
    }
}

/// The matches sorted by path.
fn sort_matches(ms: Vec<ImportMatch>) -> (r: Vec<ImportMatch>)
    ensures
        matches_view(r@) == sort_by_path(matches_view(ms@)),
{
    let mut out: Vec<ImportMatch> = Vec::new();
    let mut i: usize = 0;
    assert(matches_view(ms@).take(0) =~= Seq::<(Seq<char>, Seq<char>)>::empty());
    assert(matches_view(out@) =~= Seq::<(Seq<char>, Seq<char>)>::empty());
    while i < ms.len()
        invariant
            i <= ms@.len(),
            matches_view(out@) == sort_by_path(matches_view(ms@).take(i as int)),
        decreases ms@.len() - i,
    {
        let x = ms[i].clone_match();
        let mut p: usize = 0;
        while p < out.len() && path_before(out[p].path.as_str(), x.path.as_str())
            invariant
                p <= out@.len(),
                forall|j: int| 0 <= j < p ==> #[trigger] path_lt(matches_view(out@)[j].0, x.path@),
            decreases out@.len() - p,
        {
            p = p + 1;
        }
        proof {
            lemma_insert_by_path_at(match_view(x), matches_view(out@), p as int);
            assert(matches_view(ms@).take(i + 1).drop_last() =~= matches_view(ms@).take(i as int));
            assert(matches_view(ms@).take(i + 1).last() == match_view(x));
        }
        let ghost before = out@;
        let ghost xv = match_view(x);
        out.insert(p, x);
        assert(matches_view(out@) =~= matches_view(before).insert(p as int, xv));
        i = i + 1;
    }
    assert(matches_view(ms@).take(ms@.len() as int) =~= matches_view(ms@));
    out
}

impl ImportMatch {
    /// A field-by-field copy.
    fn clone_match(&self) -> (m: Self)
        ensures
            match_view(m) == match_view(*self),
    {
        ImportMatch { path: self.path.clone(), canonical: self.canonical.clone() }
    }
}

/// Whether `s` is among `v`.
fn has_string(v: &Vec<String>, s: &str) -> (r: bool)
    ensures
        r == v@.map_values(|x: String| x@).contains(s@),
{
    let ghost vs = v@.map_values(|x: String| x@);
    let mut i: usize = 0;
    while i < v.len()
        invariant
            i <= v@.len(),
            vs == v@.map_values(|x: String| x@),
            forall|j: int| 0 <= j < i ==> vs[j] != s@,
        decreases v@.len() - i,
    {
        if str_eq(v[i].as_str(), s) {
            assert(vs[i as int] == s@);
            return true;
        }
        i = i + 1;
    }
    false
}

/// Resolve an import against what the host expanded its pattern to,
/// recording canonical paths in `visited` to detect cycles. The visited
/// paths of the files checked before a cycle was found stay recorded.
pub fn resolve_imports_with_visited(import_path: &str, expansion: Expansion, visited: &mut Vec<String>) -> (r: Result<
    Vec<String>,
    ImportError,
>)
    ensures
        ({
            let (res, v) = spec_resolve_imports(import_path@, expansion, old(visited)@.map_values(|x: String| x@));
            &&& final(visited)@.map_values(|x: String| x@) == v
            &&& match (r, res) {
                (Ok(paths), Ok(ps)) => paths@.map_values(|x: String| x@) == ps,
                (Err(e), Err(ev)) => import_error_view(e) == ev,
                _ => false,
            }
        }),
{
    let files = match expansion {
        Expansion::NotUnicode => {
            return Err(ImportError::InvalidPath(import_path.to_string()));
        },
        Expansion::BadPattern(p, m) => {
            return Err(ImportError::GlobError(p, m));
        },
        Expansion::Files(files) => files,
    };
    let sorted = sort_matches(files);
    if sorted.len() == 0 {
        return Err(ImportError::NoMatches(import_path.to_string()));
    }
    match visit_all(&sorted, visited) {
        Some(p) => Err(ImportError::CircularImport(p)),
        None => Ok(paths_of(&sorted)),
    }
}

/// Checks the sorted matches against the visited canonical paths in turn,
/// adding each; the path of the first one already visited, if any.
fn visit_all(sorted: &Vec<ImportMatch>, visited: &mut Vec<String>) -> (r: Option<String>)
    ensures
        ({
            let (v, err) = visit(matches_view(sorted@), sorted@.len() as int, old(visited)@.map_values(|x: String| x@));
            &&& final(visited)@.map_values(|x: String| x@) == v
            &&& match r {
                Some(p) => err == Some(p@),
                None => err is None,
            }
        }),
{
    let ghost sv = matches_view(sorted@);
    let ghost v0 = visited@.map_values(|x: String| x@);
    let mut i: usize = 0;
    while i < sorted.len()
        invariant
            i <= sorted@.len(),
            sv == matches_view(sorted@),
            sv.len() == sorted@.len(),
            v0 == old(visited)@.map_values(|x: String| x@),
            visit(sv, i as int, v0) == (visited@.map_values(|x: String| x@), None::<Seq<char>>),
        decreases sorted@.len() - i,
    {
        let m = &sorted[i];
        assert(sv[i as int] == match_view(*m));
        if has_string(visited, m.canonical.as_str()) {
            let p = m.path.clone();
            assert(visit(sv, i + 1, v0) == (visited@.map_values(|x: String| x@), Some(p@)));
            proof {
                lemma_visit_stops(sv, i + 1, v0);
            }
            return Some(p);
        }
        let ghost before = visited@;
        visited.push(m.canonical.clone());
        assert(visited@.map_values(|x: String| x@) =~= before.map_values(|x: String| x@).push(sv[i as int].1));
        i = i + 1;
    }
    None
}

/// The paths of the matches, in order.
fn paths_of(sorted: &Vec<ImportMatch>) -> (r: Vec<String>)
    ensures
        r@.map_values(|x: String| x@) == matches_view(sorted@).map_values(|m: (Seq<char>, Seq<char>)| m.0),
{
    let ghost sv = matches_view(sorted@);
    let mut out: Vec<String> = Vec::new();
    let mut j: usize = 0;
    while j < sorted.len()
        invariant
            j <= sorted@.len(),
            sv == matches_view(sorted@),
            out@.len() == j,
            forall|k: int| 0 <= k < j ==> #[trigger] out@[k]@ == sv[k].0,
        decreases sorted@.len() - j,
    {
        assert(sv[j as int] == match_view(sorted@[j as int]));
        out.push(sorted[j].path.clone());
        j = j + 1;
    }
    assert(out@.map_values(|x: String| x@) =~= sv.map_values(|m: (Seq<char>, Seq<char>)| m.0));
    out
}

/// Once the walk has stopped on a repeated file, further entries change
/// nothing.
proof fn lemma_visit_stops(ms: Seq<(Seq<char>, Seq<char>)>, n: int, visited: Seq<Seq<char>>)
    requires
        0 <= n <= ms.len(),
        visit(ms, n, visited).1 is Some,
    ensures
        visit(ms, ms.len() as int, visited) == visit(ms, n, visited),
    decreases ms.len() - n,
{
    if n < ms.len() {
        lemma_visit_stops(ms, n + 1, visited);
    }
}

/// Resolve an import with nothing visited before.
pub fn resolve_imports(import_path: &str, expansion: Expansion) -> (r: Result<Vec<String>, ImportError>)
    ensures
        match (r, spec_resolve_imports(import_path@, expansion, Seq::empty()).0) {
            (Ok(paths), Ok(ps)) => paths@.map_values(|x: String| x@) == ps,
            (Err(e), Err(ev)) => import_error_view(e) == ev,
            _ => false,
        },
{
    let mut visited: Vec<String> = Vec::new();
    assert(visited@.map_values(|x: String| x@) =~= Seq::<Seq<char>>::empty());
    resolve_imports_with_visited(import_path, expansion, &mut visited)
}

} // verus!
