//! Known-directive tables for the operator-facing configuration blocks
//! (`server { }`, `pull_api { }`, `defaults { }`, `job { }`, …) and the
//! checks that reject anything not in them, with a did-you-mean hint built
//! from the Levenshtein distance.
//!
//! Every key the compiler reads from one of these blocks is listed here, and
//! nothing else, so a typo'd key is an error instead of a silent default.

use vstd::prelude::*;
use crate::ast::{Croniqfile, Directive, DirectiveOrBlock, Item, JobBlock, NamedBlock};
use crate::schedule::join_comma;
use crate::text::{chars_of, push_str, utf8_len};
use crate::validate::{diags_view, error_at, push_error, Diagnostic, Severity};
use crate::lexer::Span;

verus! {

// ─── Edit distance ───────────────────────────────────────────────────────────

/// The least of three numbers.
pub open spec fn min3(x: nat, y: nat, z: nat) -> nat {
    if x <= y && x <= z {
        x
    } else if y <= z {
        y
    } else {
        z
    }
}

/// Levenshtein distance: the fewest single-character insertions, deletions
/// and substitutions that turn `a` into `b`.
pub open spec fn lev(a: Seq<char>, b: Seq<char>) -> nat
    decreases a.len() + b.len(),
{
    if a.len() == 0 {
        b.len()
    } else if b.len() == 0 {
        a.len()
    } else {
        min3(
            lev(a.drop_last(), b.drop_last()) + if a.last() == b.last() {
                0nat
            } else {
                1nat
            },
            lev(a.drop_last(), b) + 1,
            lev(a, b.drop_last()) + 1,
        )
    }
}

/// The distance never exceeds the longer length.
pub proof fn lemma_lev_bound(a: Seq<char>, b: Seq<char>)
    ensures
        lev(a, b) <= if a.len() >= b.len() {
            a.len()
        } else {
            b.len()
        },
    decreases a.len() + b.len(),
{
    if a.len() > 0 && b.len() > 0 {
        lemma_lev_bound(a.drop_last(), b.drop_last());
    }
}

/// `[0, 1, …, m]`.
fn counting(m: usize) -> (v: Vec<usize>)
    ensures
        v@.len() == m + 1,
        forall|k: int| 0 <= k <= m ==> #[trigger] v@[k] == k,
{
    let mut v: Vec<usize> = Vec::new();
    let mut j: usize = 0;
    loop
        invariant_except_break
            j <= m,
            v@.len() == j,
            forall|k: int| 0 <= k < j ==> #[trigger] v@[k] == k,
        ensures
            v@.len() == m + 1,
            forall|k: int| 0 <= k <= m ==> #[trigger] v@[k] == k,
        decreases m - j,
    {
        v.push(j);
        if j == m {
            break;
        }
        j = j + 1;
    }
    v
}

/// Levenshtein distance, computed row by row (two rows of the table).
pub fn edit_distance(a: &str, b: &str) -> (d: usize)
    ensures
        d == lev(a@, b@),
{
    let av = chars_of(a);
    let bv = chars_of(b);
    let n = av.len();
    let m = bv.len();
    let mut prev = counting(m);
    assert forall|k: int| 0 <= k <= m implies #[trigger] prev@[k] == lev(
        av@.take(0),
        bv@.take(k),
    ) by {
        assert(av@.take(0).len() == 0);
    }
    let mut curr = counting(m);
    let mut i: usize = 0;
    while i < n
        invariant
            i <= n,
            n == av@.len(),
            m == bv@.len(),
            prev@.len() == m + 1,
            curr@.len() == m + 1,
            forall|k: int| 0 <= k <= m ==> #[trigger] prev@[k] == lev(av@.take(i as int), bv@.take(k)),
        decreases n - i,
    {
        let ac = av[i];
        let ghost ai = av@.take(i as int);
        let ghost ai1 = av@.take(i + 1);
        assert(ai1.drop_last() =~= ai);
        assert(ai1.last() == ac);
        assert(bv@.take(0).len() == 0);
        curr.set(0, i + 1);
        let mut j: usize = 0;
        while j < m
            invariant
                j <= m,
                i < n,
                n == av@.len(),
                m == bv@.len(),
                prev@.len() == m + 1,
                curr@.len() == m + 1,
                ai == av@.take(i as int),
                ai1 == av@.take(i + 1),
                ai1.drop_last() == ai,
                ai1.last() == ac,
                forall|k: int| 0 <= k <= m ==> #[trigger] prev@[k] == lev(ai, bv@.take(k)),
                forall|k: int| 0 <= k <= j ==> #[trigger] curr@[k] == lev(ai1, bv@.take(k)),
            decreases m - j,
        {
            let bc = bv[j];
            let ghost bj = bv@.take(j as int);
            let ghost bj1 = bv@.take(j + 1);
            assert(bj1.drop_last() =~= bj);
            assert(bj1.last() == bc);
            proof {
                lemma_lev_bound(ai, bj);
                lemma_lev_bound(ai, bj1);
                lemma_lev_bound(ai1, bj);
            }
            let cost: usize = if ac != bc { 1 } else { 0 };
            let sub = prev[j] + cost;
            let del = prev[j + 1].saturating_add(1);
            let ins = curr[j].saturating_add(1);
            let mut best = sub;
            if del < best {
                best = del;
            }
            if ins < best {
                best = ins;
            }
            proof {
                lemma_lev_bound(ai1, bj1);
                assert(lev(ai1, bj1) == min3(
                    lev(ai, bj) + if ac == bc { 0nat } else { 1nat },
                    lev(ai, bj1) + 1,
                    lev(ai1, bj) + 1,
                ));
            }
            curr.set(j + 1, best);
            j = j + 1;
        }
        let tmp = prev;
        prev = curr;
        curr = tmp;
        i = i + 1;
    }
    assert(av@.take(n as int) =~= av@);
    assert(bv@.take(m as int) =~= bv@);
    prev[m]
}

// ─── Suggestions ─────────────────────────────────────────────────────────────

/// The views of a list of keys.
pub open spec fn strs(ks: Seq<&str>) -> Seq<Seq<char>> {
    ks.map_values(|k: &str| k@)
}

/// How far a suggestion may be from what was written: one edit for up to
/// three characters, two for up to eight, three beyond.
pub open spec fn budget(got: Seq<char>) -> nat {
    if got.len() <= 3 {
        1
    } else if got.len() <= 8 {
        2
    } else {
        3
    }
}

/// Among the first `n` keys, the index of the nearest one within the
/// budget: smallest distance first, then fewest bytes, then earliest.
pub open spec fn best_match(got: Seq<char>, known: Seq<Seq<char>>, n: int) -> Option<int>
    decreases n,
{
    if n <= 0 {
        None
    } else {
        let b = best_match(got, known, n - 1);
        let d = lev(got, known[n - 1]);
        if d > budget(got) {
            b
        } else {
            match b {
                None => Some(n - 1),
                Some(i) => {
                    let di = lev(got, known[i]);
                    if d < di || (d == di && utf8_len(known[n - 1]) < utf8_len(known[i])) {
                        Some(n - 1)
                    } else {
                        Some(i)
                    }
                },
            }
        }
    }
}

/// The nearest known key within the budget, if any.
pub open spec fn spec_closest(got: Seq<char>, known: Seq<Seq<char>>) -> Option<Seq<char>> {
    match best_match(got, known, known.len() as int) {
        Some(i) => Some(known[i]),
        None => None,
    }
}

proof fn lemma_best_match_range(got: Seq<char>, known: Seq<Seq<char>>, n: int)
    ensures
        best_match(got, known, n) matches Some(i) ==> 0 <= i < n,
    decreases n,
{
    if n > 0 {
        lemma_best_match_range(got, known, n - 1);
    }
}

/// Nearest known key within a small edit distance, scaled so that short
/// keys do not match everything (`on` suggests nothing for `db`); ties go
/// to the shorter key, then to the earlier one.
pub fn closest<'a>(got: &str, known: &[&'a str]) -> (r: Option<&'a str>)
    ensures
        match r {
            Some(k) => spec_closest(got@, strs(known@)) == Some(k@),
            None => spec_closest(got@, strs(known@)) is None,
        },
{
    let ghost ks = strs(known@);
    let count = chars_of(got).len();
    let limit: usize = if count <= 3 {
        1
    } else if count <= 8 {
        2
    } else {
        3
    };
    let mut best: Option<usize> = None;
    let mut best_d: usize = 0;
    let mut best_len: usize = 0;
    let mut i: usize = 0;
    while i < known.len()
        invariant
            i <= known@.len(),
            ks == strs(known@),
            limit == budget(got@),
            match best {
                Some(b) => best_match(got@, ks, i as int) == Some(b as int),
                None => best_match(got@, ks, i as int) is None,
            },
            best matches Some(b) ==> b < i && best_d == lev(got@, ks[b as int]) && best_len
                == utf8_len(ks[b as int]),
        decreases known@.len() - i,
    {
        proof {
            lemma_best_match_range(got@, ks, i as int);
            crate::text::lemma_str_len(known@[i as int]);
        }
        let d = edit_distance(got, known[i]);
        let len = known[i].as_bytes().len();
        assert(ks[i as int] == known@[i as int]@);
        if d <= limit {
            match best {
                None => {
                    best = Some(i);
                    best_d = d;
                    best_len = len;
                },
                Some(_) => {
                    if d < best_d || (d == best_d && len < best_len) {
                        best = Some(i);
                        best_d = d;
                        best_len = len;
                    }
                },
            }
        }
        i = i + 1;
    }
    proof {
        lemma_best_match_range(got@, ks, known@.len() as int);
    }
    match best {
        Some(b) => {
            assert(ks[b as int] == known@[b as int]@);
            Some(known[b])
        },
        None => None,
    }
}

/// `a` comes strictly before `b` in character order (the order of `str`,
/// since UTF-8 preserves code point order byte by byte).
pub open spec fn char_lt(a: Seq<char>, b: Seq<char>) -> bool
    decreases a.len(),
{
    if a.len() == 0 {
        b.len() > 0
    } else if b.len() == 0 {
        false
    } else if a[0] != b[0] {
        a[0] < b[0]
    } else {
        char_lt(a.drop_first(), b.drop_first())
    }
}

/// `x` inserted into the sorted `s` before the first element not below it.
pub open spec fn insert_sorted(x: Seq<char>, s: Seq<Seq<char>>) -> Seq<Seq<char>>
    decreases s.len(),
{
    if s.len() == 0 {
        seq![x]
    } else if !char_lt(s[0], x) {
        seq![x] + s
    } else {
        seq![s[0]] + insert_sorted(x, s.drop_first())
    }
}

/// The keys in ascending character order.
pub open spec fn sorted_keys(s: Seq<Seq<char>>) -> Seq<Seq<char>>
    decreases s.len(),
{
    if s.len() == 0 {
        Seq::empty()
    } else {
        insert_sorted(s.last(), sorted_keys(s.drop_last()))
    }
}

/// Whether `a` comes strictly before `b`.
fn str_lt(a: &str, b: &str) -> (r: bool)
    ensures
        r == char_lt(a@, b@),
{
    let x = chars_of(a);
    let y = chars_of(b);
    let mut i: usize = 0;
    assert(x@.skip(0) =~= x@);
    assert(y@.skip(0) =~= y@);
    while i < x.len() && i < y.len() && x[i] == y[i]
        invariant
            i <= x@.len(),
            i <= y@.len(),
            char_lt(x@, y@) == char_lt(x@.skip(i as int), y@.skip(i as int)),
        decreases x@.len() - i,
    {
        assert(x@.skip(i as int).drop_first() =~= x@.skip(i + 1));
        assert(y@.skip(i as int).drop_first() =~= y@.skip(i + 1));
        i = i + 1;
    }
    if i == x.len() {
        i < y.len()
    } else if i == y.len() {
        false
    } else {
        x[i] < y[i]
    }
}

/// Inserting at the first position whose element is not below `x`.
proof fn lemma_insert_sorted_at(x: Seq<char>, s: Seq<Seq<char>>, p: int)
    requires
        0 <= p <= s.len(),
        forall|j: int| 0 <= j < p ==> #[trigger] char_lt(s[j], x),
        p < s.len() ==> !char_lt(s[p], x),
    ensures
        insert_sorted(x, s) == s.insert(p, x),
    decreases s.len(),
{
    if s.len() == 0 {
        assert(s.insert(p, x) =~= seq![x]);
    } else if p == 0 {
        assert(s.insert(p, x) =~= seq![x] + s);
    } else {
        lemma_insert_sorted_at(x, s.drop_first(), p - 1);
        assert(s.insert(p, x) =~= seq![s[0]] + s.drop_first().insert(p - 1, x));
    }
}

/// The keys sorted ascending.
fn sort_keys<'a>(known: &[&'a str]) -> (r: Vec<&'a str>)
    ensures
        strs(r@) == sorted_keys(strs(known@)),
{
    let mut out: Vec<&'a str> = Vec::new();
    let mut i: usize = 0;
    assert(strs(known@).take(0) =~= Seq::<Seq<char>>::empty());
    while i < known.len()
        invariant
            i <= known@.len(),
            strs(out@) == sorted_keys(strs(known@).take(i as int)),
        decreases known@.len() - i,
    {
        let x = known[i];
        let mut p: usize = 0;
        while p < out.len() && str_lt(out[p], x)
            invariant
                p <= out@.len(),
                forall|j: int| 0 <= j < p ==> #[trigger] char_lt(strs(out@)[j], x@),
            decreases out@.len() - p,
        {
            p = p + 1;
        }
        proof {
            lemma_insert_sorted_at(x@, strs(out@), p as int);
            assert(strs(known@).take(i + 1).drop_last() =~= strs(known@).take(i as int));
            assert(strs(known@).take(i + 1).last() == x@);
        }
        let ghost before = out@;
        out.insert(p, x);
        assert(strs(out@) =~= strs(before).insert(p as int, x@));
        i = i + 1;
    }
    assert(strs(known@).take(known@.len() as int) =~= strs(known@));
    out
}

/// ` — did you mean 'x'?` when a key is close enough, otherwise the full
/// key list, sorted, so the operator sees what the block accepts.
pub open spec fn spec_hint(got: Seq<char>, known: Seq<Seq<char>>) -> Seq<char> {
    match spec_closest(got, known) {
        Some(best) => " — did you mean '"@ + best + "'?"@,
        None => " (known: "@ + join_comma(sorted_keys(known)) + ")"@,
    }
}

/// The suggestion appended to an unknown key or block name.
pub fn hint(got: &str, known: &[&str]) -> (s: String)
    ensures
        s@ == spec_hint(got@, strs(known@)),
{
    let mut s = String::new();
    match closest(got, known) {
        Some(best) => {
            push_str(&mut s, " — did you mean '");
            push_str(&mut s, best);
            push_str(&mut s, "'?");
        },
        None => {
            let sorted = sort_keys(known);
            let ghost names = strs(sorted@);
            push_str(&mut s, " (known: ");
            let ghost base = s@;
            let mut i: usize = 0;
            assert(names.take(0) =~= Seq::<Seq<char>>::empty());
            assert(base + join_comma(names.take(0)) =~= base);
            while i < sorted.len()
                invariant
                    i <= sorted@.len(),
                    names == strs(sorted@),
                    s@ == base + join_comma(names.take(i as int)),
                decreases sorted@.len() - i,
            {
                if i > 0 {
                    push_str(&mut s, ", ");
                }
                push_str(&mut s, sorted[i]);
                proof {
                    assert(names.take(i + 1).drop_last() =~= names.take(i as int));
                    reveal_strlit(", ");
                }
                i = i + 1;
                assert(s@ =~= base + join_comma(names.take(i as int)));
            }
            assert(names.take(sorted@.len() as int) =~= names);
            push_str(&mut s, ")");
        },
    }
    s
}

// ─── Known keys, per block ───────────────────────────────────────────────────

/// `server { }`.
pub open spec fn server_keys() -> Seq<Seq<char>> {
    seq!["listen"@, "data_dir"@, "db"@, "app_url"@, "execution_retention"@]
}

/// `pull_api { }`. The runner-token signing secret is deliberately absent:
/// it lives in the environment.
pub open spec fn pull_api_keys() -> Seq<Seq<char>> {
    seq!["listen"@, "lease_ttl"@, "trigger_dedup_window"@, "runner_identity_binding"@]
}

/// `mcp { }`.
pub open spec fn mcp_keys() -> Seq<Seq<char>> {
    seq!["enabled"@, "allowed_hosts"@]
}

/// `policy { }`.
pub open spec fn policy_keys() -> Seq<Seq<char>> {
    seq!["dsl_adopt_on_mutate"@, "strict_calendars"@]
}

/// `oidc { }`. `client_secret` is not a directive by design: secrets stay
/// in the environment.
pub open spec fn oidc_keys() -> Seq<Seq<char>> {
    seq![
        "issuer"@,
        "client_id"@,
        "redirect_url"@,
        "default_role"@,
        "provider_name"@,
        "post_login_redirect"@,
    ]
}

/// `smtp { }`. Credentials stay in the environment.
pub open spec fn smtp_keys() -> Seq<Seq<char>> {
    seq!["host"@, "port"@, "security"@, "from"@]
}

/// `defaults { }` scalar directives.
pub open spec fn defaults_keys() -> Seq<Seq<char>> {
    seq![
        "timezone"@,
        "timeout"@,
        "execution_mode"@,
        "catch_up"@,
        "queue_ttl"@,
        "max_queue_depth"@,
        "keep_last"@,
    ]
}

/// `retry { }` bodies.
pub open spec fn retry_keys() -> Seq<Seq<char>> {
    seq!["max_attempts"@, "base"@, "cap"@, "delay"@, "step"@, "jitter"@]
}

/// `dead_letter { }` bodies.
pub open spec fn dead_letter_keys() -> Seq<Seq<char>> {
    seq!["enabled"@, "retention"@, "operator_hint"@, "replay_max_age"@]
}

/// Sub-blocks of `defaults { }` (and of a job) with their keys.
pub open spec fn defaults_blocks() -> Seq<(Seq<char>, Seq<Seq<char>>)> {
    seq![("retry"@, retry_keys()), ("dead_letter"@, dead_letter_keys())]
}

/// `job { }` scalar directives.
pub open spec fn job_keys() -> Seq<Seq<char>> {
    seq![
        "description"@,
        "timezone"@,
        "timeout"@,
        "window"@,
        "execution_mode"@,
        "catch_up"@,
        "queue_ttl"@,
        "max_queue_depth"@,
        "keep_last"@,
        "singleton"@,
        "max_concurrent"@,
        "concurrency_group"@,
        "tags"@,
        "run_on_register"@,
    ]
}

/// `concurrency_group <name> { }`.
pub open spec fn concurrency_group_keys() -> Seq<Seq<char>> {
    seq!["max_concurrent"@]
}

/// Sub-blocks a `job { }` accepts.
pub open spec fn job_blocks() -> Seq<Seq<char>> {
    seq!["runner"@, "retry"@, "dead_letter"@, "metadata"@]
}

/// Schedule options, which belong on the schedule line rather than in the
/// job body.
pub open spec fn schedule_only_keys() -> Seq<Seq<char>> {
    seq!["calendar"@, "not_before"@, "not_after"@]
}

/// `log { }` bodies.
pub open spec fn log_keys() -> Seq<Seq<char>> {
    seq!["level"@, "format"@, "output"@]
}

/// `metrics { }` bodies.
pub open spec fn metrics_keys() -> Seq<Seq<char>> {
    seq!["listen"@, "path"@]
}

/// Sub-blocks of `observability { }` with their keys.
pub open spec fn observability_blocks() -> Seq<(Seq<char>, Seq<Seq<char>>)> {
    seq![("log"@, log_keys()), ("metrics"@, metrics_keys())]
}

/// Sub-blocks of `auth { }` with their keys.
pub open spec fn auth_blocks() -> Seq<(Seq<char>, Seq<Seq<char>>)> {
    seq![("password"@, seq!["enabled"@]), ("totp"@, seq!["required"@])]
}

/// The views of a table of sub-blocks.
pub open spec fn table_view(t: Seq<(&str, Vec<&str>)>) -> Seq<(Seq<char>, Seq<Seq<char>>)> {
    t.map_values(|e: (&str, Vec<&str>)| (e.0@, strs(e.1@)))
}

/// `server { }` keys.
pub fn server_table() -> (r: Vec<&'static str>)
    ensures
        strs(r@) == server_keys(),
{
    let v = vec!["listen", "data_dir", "db", "app_url", "execution_retention"];
    assert(strs(v@) =~= server_keys());
    v
}

fn pull_api_table() -> (r: Vec<&'static str>)
    ensures
        strs(r@) == pull_api_keys(),
{
    let v = vec!["listen", "lease_ttl", "trigger_dedup_window", "runner_identity_binding"];
    assert(strs(v@) =~= pull_api_keys());
    v
}

fn mcp_table() -> (r: Vec<&'static str>)
    ensures
        strs(r@) == mcp_keys(),
{
    let v = vec!["enabled", "allowed_hosts"];
    assert(strs(v@) =~= mcp_keys());
    v
}

fn policy_table() -> (r: Vec<&'static str>)
    ensures
        strs(r@) == policy_keys(),
{
    let v = vec!["dsl_adopt_on_mutate", "strict_calendars"];
    assert(strs(v@) =~= policy_keys());
    v
}

fn oidc_table() -> (r: Vec<&'static str>)
    ensures
        strs(r@) == oidc_keys(),
{
    let v = vec![
        "issuer",
        "client_id",
        "redirect_url",
        "default_role",
        "provider_name",
        "post_login_redirect",
    ];
    assert(strs(v@) =~= oidc_keys());
    v
}

fn smtp_table() -> (r: Vec<&'static str>)
    ensures
        strs(r@) == smtp_keys(),
{
    let v = vec!["host", "port", "security", "from"];
    assert(strs(v@) =~= smtp_keys());
    v
}

fn defaults_table() -> (r: Vec<&'static str>)
    ensures
        strs(r@) == defaults_keys(),
{
    let v = vec![
        "timezone",
        "timeout",
        "execution_mode",
        "catch_up",
        "queue_ttl",
        "max_queue_depth",
        "keep_last",
    ];
    assert(strs(v@) =~= defaults_keys());
    v
}

fn defaults_blocks_table() -> (r: Vec<(&'static str, Vec<&'static str>)>)
    ensures
        table_view(r@) == defaults_blocks(),
{
    let retry = vec!["max_attempts", "base", "cap", "delay", "step", "jitter"];
    assert(strs(retry@) =~= retry_keys());
    let dead = vec!["enabled", "retention", "operator_hint", "replay_max_age"];
    assert(strs(dead@) =~= dead_letter_keys());
    let v = vec![("retry", retry), ("dead_letter", dead)];
    assert(table_view(v@) =~= defaults_blocks());
    v
}

fn job_table() -> (r: Vec<&'static str>)
    ensures
        strs(r@) == job_keys(),
{
    let v = vec![
        "description",
        "timezone",
        "timeout",
        "window",
        "execution_mode",
        "catch_up",
        "queue_ttl",
        "max_queue_depth",
        "keep_last",
        "singleton",
        "max_concurrent",
        "concurrency_group",
        "tags",
        "run_on_register",
    ];
    assert(strs(v@) =~= job_keys());
    v
}

fn concurrency_group_table() -> (r: Vec<&'static str>)
    ensures
        strs(r@) == concurrency_group_keys(),
{
    let v = vec!["max_concurrent"];
    assert(strs(v@) =~= concurrency_group_keys());
    v
}

fn job_blocks_table() -> (r: Vec<&'static str>)
    ensures
        strs(r@) == job_blocks(),
{
    let v = vec!["runner", "retry", "dead_letter", "metadata"];
    assert(strs(v@) =~= job_blocks());
    v
}

fn schedule_only_table() -> (r: Vec<&'static str>)
    ensures
        strs(r@) == schedule_only_keys(),
{
    let v = vec!["calendar", "not_before", "not_after"];
    assert(strs(v@) =~= schedule_only_keys());
    v
}

fn observability_blocks_table() -> (r: Vec<(&'static str, Vec<&'static str>)>)
    ensures
        table_view(r@) == observability_blocks(),
{
    let log = vec!["level", "format", "output"];
    assert(strs(log@) =~= log_keys());
    let metrics = vec!["listen", "path"];
    assert(strs(metrics@) =~= metrics_keys());
    let v = vec![("log", log), ("metrics", metrics)];
    assert(table_view(v@) =~= observability_blocks());
    v
}

fn auth_blocks_table() -> (r: Vec<(&'static str, Vec<&'static str>)>)
    ensures
        table_view(r@) == auth_blocks(),
{
    let password = vec!["enabled"];
    assert(strs(password@) =~= seq!["enabled"@]);
    let totp = vec!["required"];
    assert(strs(totp@) =~= seq!["required"@]);
    let v = vec![("password", password), ("totp", totp)];
    assert(table_view(v@) =~= auth_blocks());
    v
}

// ─── Messages ────────────────────────────────────────────────────────────────

/// The message for `pull_api { auth … }`, a directive that was removed and
/// must not be silently ignored: its value was the JWT signing secret.
pub open spec fn removed_auth_message() -> Seq<char> {
    "`pull_api { auth … }` was removed in 0.29.0 — it was never an auth on/off switch, its value was used verbatim as the JWT signing secret. Move that exact value to the CRONIQ_JWT_SECRET env var (or $DATA_DIR/jwt.secret) and delete this line. Leaving it here and letting the secret change also changes the key that wraps stored TOTP secrets at rest, which makes them undecryptable (recovery codes keep working). If no user has enrolled TOTP, any new secret is safe."@
}

/// `unknown directive 'key' in `block { }`` plus the hint.
pub open spec fn unknown_directive_message(key: Seq<char>, block: Seq<char>, hint: Seq<char>) -> Seq<char> {
    "unknown directive '"@ + key + "' in `"@ + block + " { }`"@ + hint
}

/// `unknown block 'name { }' in `parent { }`` plus the hint.
pub open spec fn unknown_block_message(name: Seq<char>, parent: Seq<char>, hint: Seq<char>) -> Seq<char> {
    "unknown block '"@ + name + " { }' in `"@ + parent + " { }`"@ + hint
}

/// A block nested where only directives may stand.
pub open spec fn directives_only_message(name: Seq<char>, path: Seq<char>) -> Seq<char> {
    "unknown block '"@ + name + " { }' in `"@ + path + " { }` — this block takes directives only"@
}

/// A schedule option written as a job directive.
pub open spec fn schedule_option_message(key: Seq<char>, job: Seq<char>) -> Seq<char> {
    "`"@ + key
        + "` is a schedule option, not a job directive — move it into the schedule line's braces, e.g. `every day at 02:00 { "@
        + key + " … }` (job '"@ + job + "')"@
}

// ─── The checks, as specifications ───────────────────────────────────────────

/// What checking one directive against the keys of `block` reports.
pub open spec fn directive_diags(block: Seq<char>, known: Seq<Seq<char>>, d: Directive) -> Seq<
    (Severity, Seq<char>, Span),
> {
    let key = d.key.value@;
    if known.contains(key) {
        Seq::empty()
    } else if block == "pull_api"@ && key == "auth"@ {
        seq![error_at(removed_auth_message(), d.key.span)]
    } else {
        seq![error_at(unknown_directive_message(key, block, spec_hint(key, known)), d.key.span)]
    }
}

/// What checking the first `n` directives reports.
pub open spec fn directives_diags(
    block: Seq<char>,
    known: Seq<Seq<char>>,
    ds: Seq<Directive>,
    n: int,
) -> Seq<(Severity, Seq<char>, Span)>
    decreases n,
{
    if n <= 0 {
        Seq::empty()
    } else {
        directives_diags(block, known, ds, n - 1) + directive_diags(block, known, ds[n - 1])
    }
}

/// The keys of the first entry of `table` named `name`, from entry `i` on.
pub open spec fn find_entry(table: Seq<(Seq<char>, Seq<Seq<char>>)>, name: Seq<char>, i: int) -> Option<
    Seq<Seq<char>>,
>
    decreases table.len() - i,
{
    if i < 0 || i >= table.len() {
        None
    } else if table[i].0 == name {
        Some(table[i].1)
    } else {
        find_entry(table, name, i + 1)
    }
}

/// The names of a table of sub-blocks.
pub open spec fn entry_names(table: Seq<(Seq<char>, Seq<Seq<char>>)>) -> Seq<Seq<char>> {
    table.map_values(|e: (Seq<char>, Seq<Seq<char>>)| e.0)
}

/// What checking the first `n` entries of a sub-block body reports.
pub open spec fn body_diags(
    path: Seq<char>,
    keys: Seq<Seq<char>>,
    items: Seq<DirectiveOrBlock>,
    n: int,
) -> Seq<(Severity, Seq<char>, Span)>
    decreases n,
{
    if n <= 0 {
        Seq::empty()
    } else {
        body_diags(path, keys, items, n - 1) + match items[n - 1] {
            DirectiveOrBlock::Directive(d) => directive_diags(path, keys, d),
            DirectiveOrBlock::Block(inner) => seq![
                error_at(directives_only_message(inner.name.value@, path), inner.name.span),
            ],
            DirectiveOrBlock::Comment(_) => Seq::empty(),
        }
    }
}

/// What checking a sub-block of `parent` reports: its name against the
/// table, then its body against the keys that name maps to.
pub open spec fn named_block_diags(
    parent: Seq<char>,
    table: Seq<(Seq<char>, Seq<Seq<char>>)>,
    nb: NamedBlock,
) -> Seq<(Severity, Seq<char>, Span)> {
    let name = nb.name.value@;
    match find_entry(table, name, 0) {
        None => seq![
            error_at(
                unknown_block_message(name, parent, spec_hint(name, entry_names(table))),
                nb.name.span,
            ),
        ],
        Some(keys) => body_diags(
            parent + seq!['.'] + name,
            keys,
            nb.directives@,
            nb.directives@.len() as int,
        ),
    }
}

/// What checking the directives of a job's `retry` / `dead_letter` block
/// reports (nested blocks and comments there are not checked).
pub open spec fn job_block_body_diags(
    path: Seq<char>,
    keys: Seq<Seq<char>>,
    items: Seq<DirectiveOrBlock>,
    n: int,
) -> Seq<(Severity, Seq<char>, Span)>
    decreases n,
{
    if n <= 0 {
        Seq::empty()
    } else {
        job_block_body_diags(path, keys, items, n - 1) + match items[n - 1] {
            DirectiveOrBlock::Directive(d) => directive_diags(path, keys, d),
            _ => Seq::empty(),
        }
    }
}

/// What checking one entry of a job body reports.
pub open spec fn job_entry_diags(job: JobBlock, item: DirectiveOrBlock) -> Seq<
    (Severity, Seq<char>, Span),
> {
    let label = "job "@ + job.key.raw@;
    match item {
        DirectiveOrBlock::Directive(d) => {
            let key = d.key.value@;
            if job_keys().contains(key) {
                Seq::empty()
            } else if schedule_only_keys().contains(key) {
                seq![error_at(schedule_option_message(key, job.key.raw@), d.key.span)]
            } else {
                seq![
                    error_at(
                        unknown_directive_message(key, label, spec_hint(key, job_keys())),
                        d.key.span,
                    ),
                ]
            }
        },
        DirectiveOrBlock::Block(nb) => {
            let name = nb.name.value@;
            if !job_blocks().contains(name) {
                seq![
                    error_at(
                        unknown_block_message(name, label, spec_hint(name, job_blocks())),
                        nb.name.span,
                    ),
                ]
            } else {
                match find_entry(defaults_blocks(), name, 0) {
                    Some(keys) => job_block_body_diags(
                        label + seq!['.'] + name,
                        keys,
                        nb.directives@,
                        nb.directives@.len() as int,
                    ),
                    None => Seq::empty(),
                }
            }
        },
        DirectiveOrBlock::Comment(_) => Seq::empty(),
    }
}

/// What checking the first `n` entries of a job body reports.
pub open spec fn job_body_diags(job: JobBlock, n: int) -> Seq<(Severity, Seq<char>, Span)>
    decreases n,
{
    if n <= 0 {
        Seq::empty()
    } else {
        job_body_diags(job, n - 1) + job_entry_diags(job, job.directives@[n - 1])
    }
}

/// What checking the first `n` entries of `defaults { }` reports.
pub open spec fn defaults_diags(items: Seq<DirectiveOrBlock>, n: int) -> Seq<
    (Severity, Seq<char>, Span),
>
    decreases n,
{
    if n <= 0 {
        Seq::empty()
    } else {
        defaults_diags(items, n - 1) + match items[n - 1] {
            DirectiveOrBlock::Directive(d) => directive_diags("defaults"@, defaults_keys(), d),
            DirectiveOrBlock::Block(nb) => named_block_diags("defaults"@, defaults_blocks(), nb),
            DirectiveOrBlock::Comment(_) => Seq::empty(),
        }
    }
}

/// What checking the first `n` sub-blocks of `parent` reports.
pub open spec fn sub_blocks_diags(
    parent: Seq<char>,
    table: Seq<(Seq<char>, Seq<Seq<char>>)>,
    bs: Seq<NamedBlock>,
    n: int,
) -> Seq<(Severity, Seq<char>, Span)>
    decreases n,
{
    if n <= 0 {
        Seq::empty()
    } else {
        sub_blocks_diags(parent, table, bs, n - 1) + named_block_diags(parent, table, bs[n - 1])
    }
}

/// What checking one top-level item reports.
pub open spec fn item_block_diags(item: Item) -> Seq<(Severity, Seq<char>, Span)> {
    match item {
        Item::Server(b) => directives_diags("server"@, server_keys(), b.directives@, b.directives@.len() as int),
        Item::PullApi(b) => directives_diags("pull_api"@, pull_api_keys(), b.directives@, b.directives@.len() as int),
        Item::Mcp(b) => directives_diags("mcp"@, mcp_keys(), b.directives@, b.directives@.len() as int),
        Item::Policy(b) => directives_diags("policy"@, policy_keys(), b.directives@, b.directives@.len() as int),
        Item::Oidc(b) => directives_diags("oidc"@, oidc_keys(), b.directives@, b.directives@.len() as int),
        Item::Smtp(b) => directives_diags("smtp"@, smtp_keys(), b.directives@, b.directives@.len() as int),
        Item::Defaults(b) => defaults_diags(b.directives@, b.directives@.len() as int),
        Item::Observability(b) => sub_blocks_diags("observability"@, observability_blocks(), b.sub_blocks@, b.sub_blocks@.len() as int),
        Item::Auth(b) => sub_blocks_diags("auth"@, auth_blocks(), b.sub_blocks@, b.sub_blocks@.len() as int),
        Item::ConcurrencyGroup(b) => directives_diags(
            "concurrency_group "@ + b.name.value@,
            concurrency_group_keys(),
            b.directives@,
            b.directives@.len() as int,
        ),
        Item::Job(job) => job_body_diags(job, job.directives@.len() as int),
        _ => Seq::empty(),
    }
}

/// What checking the first `n` items reports.
pub open spec fn blocks_diags(items: Seq<Item>, n: int) -> Seq<(Severity, Seq<char>, Span)>
    decreases n,
{
    if n <= 0 {
        Seq::empty()
    } else {
        blocks_diags(items, n - 1) + item_block_diags(items[n - 1])
    }
}

// ─── The checks ──────────────────────────────────────────────────────────────

/// Whether `key` is one of `known`.
fn contains_key(known: &Vec<&str>, key: &str) -> (r: bool)
    ensures
        r == strs(known@).contains(key@),
{
    let mut i: usize = 0;
    while i < known.len()
        invariant
            i <= known@.len(),
            forall|j: int| 0 <= j < i ==> strs(known@)[j] != key@,
        decreases known@.len() - i,
    {
        if crate::text::str_eq(known[i], key) {
            assert(strs(known@)[i as int] == key@);
            return true;
        }
        i = i + 1;
    }
    false
}

/// Where the entry named `name` stands in a table.
fn find_in_table(table: &Vec<(&str, Vec<&str>)>, name: &str) -> (r: Option<usize>)
    ensures
        match r {
            Some(i) => i < table@.len() && find_entry(table_view(table@), name@, 0) == Some(
                strs(table@[i as int].1@),
            ),
            None => find_entry(table_view(table@), name@, 0) is None,
        },
{
    let ghost t = table_view(table@);
    let mut i: usize = 0;
    while i < table.len()
        invariant
            i <= table@.len(),
            t == table_view(table@),
            find_entry(t, name@, 0) == find_entry(t, name@, i as int),
        decreases table@.len() - i,
    {
        if crate::text::str_eq(table[i].0, name) {
            return Some(i);
        }
        i = i + 1;
    }
    None
}

/// The names of a table, in order.
fn table_names<'a>(table: &Vec<(&'a str, Vec<&'a str>)>) -> (r: Vec<&'a str>)
    ensures
        strs(r@) == entry_names(table_view(table@)),
{
    let mut r: Vec<&'a str> = Vec::new();
    let mut i: usize = 0;
    while i < table.len()
        invariant
            i <= table@.len(),
            strs(r@) == entry_names(table_view(table@)).take(i as int),
        decreases table@.len() - i,
    {
        assert(table_view(table@)[i as int].0 == table@[i as int].0@);
        assert(entry_names(table_view(table@))[i as int] == table@[i as int].0@);
        let ghost before = r@;
        r.push(table[i].0);
        assert(strs(r@) =~= strs(before).push(table@[i as int].0@));
        i = i + 1;
        assert(strs(r@) =~= entry_names(table_view(table@)).take(i as int));
    }
    assert(entry_names(table_view(table@)).take(table@.len() as int) =~= entry_names(
        table_view(table@),
    ));
    r
}

/// `a` + `sep` + `b` as a new `String`.
fn joined(a: &str, sep: &str, b: &str) -> (s: String)
    ensures
        s@ == a@ + sep@ + b@,
{
    let mut s = String::new();
    push_str(&mut s, a);
    push_str(&mut s, sep);
    push_str(&mut s, b);
    s
}

/// Checks one directive against the keys of `block`.
fn check_directive(block: &str, known: &Vec<&str>, d: &Directive, diags: &mut Vec<Diagnostic>)
    ensures
        diags_view(final(diags)@) == diags_view(old(diags)@) + directive_diags(block@, strs(known@), *d),
{
    let key = d.key.value.as_str();
    if contains_key(known, key) {
        assert(diags_view(diags@) =~= diags_view(old(diags)@) + directive_diags(block@, strs(known@), *d));
        return;
    }
    if crate::text::str_eq(block, "pull_api") && crate::text::str_eq(key, "auth") {
        let mut m = String::new();
        push_str(
            &mut m,
            "`pull_api { auth … }` was removed in 0.29.0 — it was never an auth on/off switch, its value was used verbatim as the JWT signing secret. Move that exact value to the CRONIQ_JWT_SECRET env var (or $DATA_DIR/jwt.secret) and delete this line. Leaving it here and letting the secret change also changes the key that wraps stored TOTP secrets at rest, which makes them undecryptable (recovery codes keep working). If no user has enrolled TOTP, any new secret is safe.",
        );
        push_error(diags, m, d.key.span);
        assert(diags_view(diags@) =~= diags_view(old(diags)@) + directive_diags(block@, strs(known@), *d));
        return;
    }
    let mut m = String::new();
    push_str(&mut m, "unknown directive '");
    push_str(&mut m, key);
    push_str(&mut m, "' in `");
    push_str(&mut m, block);
    push_str(&mut m, " { }`");
    let h = hint(key, known.as_slice());
    push_str(&mut m, h.as_str());
    push_error(diags, m, d.key.span);
    assert(diags_view(diags@) =~= diags_view(old(diags)@) + directive_diags(block@, strs(known@), *d));
}

/// Checks a list of directives against the keys of `block`.
fn check_directives(block: &str, known: &Vec<&str>, directives: &Vec<Directive>, diags: &mut Vec<Diagnostic>)
    ensures
        diags_view(final(diags)@) == diags_view(old(diags)@) + directives_diags(
            block@,
            strs(known@),
            directives@,
            directives@.len() as int,
        ),
{
    let mut i: usize = 0;
    while i < directives.len()
        invariant
            i <= directives@.len(),
            diags_view(diags@) == diags_view(old(diags)@) + directives_diags(
                block@,
                strs(known@),
                directives@,
                i as int,
            ),
        decreases directives@.len() - i,
    {
        check_directive(block, known, &directives[i], diags);
        i = i + 1;
        assert(diags_view(diags@) =~= diags_view(old(diags)@) + directives_diags(
            block@,
            strs(known@),
            directives@,
            i as int,
        ));
    }
}

/// Checks a sub-block's name against `table`, then its body against the
/// keys that name maps to.
fn check_named_block(
    parent: &str,
    table: &Vec<(&str, Vec<&str>)>,
    nb: &NamedBlock,
    diags: &mut Vec<Diagnostic>,
)
    ensures
        diags_view(final(diags)@) == diags_view(old(diags)@) + named_block_diags(
            parent@,
            table_view(table@),
            *nb,
        ),
{
    let name = nb.name.value.as_str();
    match find_in_table(table, name) {
        None => {
            let names = table_names(table);
            let mut m = String::new();
            push_str(&mut m, "unknown block '");
            push_str(&mut m, name);
            push_str(&mut m, " { }' in `");
            push_str(&mut m, parent);
            push_str(&mut m, " { }`");
            let h = hint(name, names.as_slice());
            push_str(&mut m, h.as_str());
            push_error(diags, m, nb.name.span);
            assert(diags_view(diags@) =~= diags_view(old(diags)@) + named_block_diags(
                parent@,
                table_view(table@),
                *nb,
            ));
        },
        Some(k) => {
            let keys = &table[k].1;
            let path = joined(parent, ".", name);
            proof {
                reveal_strlit(".");
            }
            let ghost items = nb.directives@;
            let mut i: usize = 0;
            while i < nb.directives.len()
                invariant
                    i <= items.len(),
                    items == nb.directives@,
                    path@ == parent@ + seq!['.'] + name@,
                    diags_view(diags@) == diags_view(old(diags)@) + body_diags(
                        path@,
                        strs(keys@),
                        items,
                        i as int,
                    ),
                decreases items.len() - i,
            {
                match &nb.directives[i] {
                    DirectiveOrBlock::Directive(d) => check_directive(path.as_str(), keys, d, diags),
                    DirectiveOrBlock::Block(inner) => {
                        let mut m = String::new();
                        push_str(&mut m, "unknown block '");
                        push_str(&mut m, inner.name.value.as_str());
                        push_str(&mut m, " { }' in `");
                        push_str(&mut m, path.as_str());
                        push_str(&mut m, " { }` — this block takes directives only");
                        push_error(diags, m, inner.name.span);
                    },
                    DirectiveOrBlock::Comment(_) => {},
                }
                i = i + 1;
                assert(diags_view(diags@) =~= diags_view(old(diags)@) + body_diags(
                    path@,
                    strs(keys@),
                    items,
                    i as int,
                ));
            }
            assert(parent@ + seq!['.'] + name@ =~= parent@ + "."@ + name@);
        },
    }
}

/// Checks a job body: directive keys, sub-block names, and the two
/// sub-blocks whose keys are fixed.
fn check_job_body(job: &JobBlock, diags: &mut Vec<Diagnostic>)
    ensures
        diags_view(final(diags)@) == diags_view(old(diags)@) + job_body_diags(
            *job,
            job.directives@.len() as int,
        ),
{
    let label = joined("job ", "", job.key.raw.as_str());
    proof {
        reveal_strlit("");
    }
    assert(label@ =~= "job "@ + job.key.raw@);
    let job_keys_v = job_table();
    let schedule_only = schedule_only_table();
    let job_blocks_v = job_blocks_table();
    let defaults_blocks_v = defaults_blocks_table();
    let mut i: usize = 0;
    while i < job.directives.len()
        invariant
            i <= job.directives@.len(),
            label@ == "job "@ + job.key.raw@,
            strs(job_keys_v@) == job_keys(),
            strs(schedule_only@) == schedule_only_keys(),
            strs(job_blocks_v@) == job_blocks(),
            table_view(defaults_blocks_v@) == defaults_blocks(),
            diags_view(diags@) == diags_view(old(diags)@) + job_body_diags(*job, i as int),
        decreases job.directives@.len() - i,
    {
        let ghost before = diags@;
        match &job.directives[i] {
            DirectiveOrBlock::Directive(d) => {
                let key = d.key.value.as_str();
                if contains_key(&job_keys_v, key) {
                } else if contains_key(&schedule_only, key) {
                    let mut m = String::new();
                    push_str(&mut m, "`");
                    push_str(&mut m, key);
                    push_str(
                        &mut m,
                        "` is a schedule option, not a job directive — move it into the schedule line's braces, e.g. `every day at 02:00 { ",
                    );
                    push_str(&mut m, key);
                    push_str(&mut m, " … }` (job '");
                    push_str(&mut m, job.key.raw.as_str());
                    push_str(&mut m, "')");
                    push_error(diags, m, d.key.span);
                } else {
                    let mut m = String::new();
                    push_str(&mut m, "unknown directive '");
                    push_str(&mut m, key);
                    push_str(&mut m, "' in `");
                    push_str(&mut m, label.as_str());
                    push_str(&mut m, " { }`");
                    let h = hint(key, job_keys_v.as_slice());
                    push_str(&mut m, h.as_str());
                    push_error(diags, m, d.key.span);
                }
            },
            DirectiveOrBlock::Block(nb) => {
                let name = nb.name.value.as_str();
                if !contains_key(&job_blocks_v, name) {
                    let mut m = String::new();
                    push_str(&mut m, "unknown block '");
                    push_str(&mut m, name);
                    push_str(&mut m, " { }' in `");
                    push_str(&mut m, label.as_str());
                    push_str(&mut m, " { }`");
                    let h = hint(name, job_blocks_v.as_slice());
                    push_str(&mut m, h.as_str());
                    push_error(diags, m, nb.name.span);
                } else {
                    match find_in_table(&defaults_blocks_v, name) {
                        Some(k) => {
                            let keys = &defaults_blocks_v[k].1;
                            let path = joined(label.as_str(), ".", name);
                            proof {
                                reveal_strlit(".");
                            }
                            let ghost items = nb.directives@;
                            let ghost start = diags@;
                            let mut j: usize = 0;
                            while j < nb.directives.len()
                                invariant
                                    j <= items.len(),
                                    items == nb.directives@,
                                    path@ == label@ + seq!['.'] + name@,
                                    diags_view(diags@) == diags_view(start) + job_block_body_diags(
                                        path@,
                                        strs(keys@),
                                        items,
                                        j as int,
                                    ),
                                decreases items.len() - j,
                            {
                                match &nb.directives[j] {
                                    DirectiveOrBlock::Directive(d) => check_directive(path.as_str(), keys, d, diags),
                                    _ => {},
                                }
                                j = j + 1;
                                assert(diags_view(diags@) =~= diags_view(start) + job_block_body_diags(
                                    path@,
                                    strs(keys@),
                                    items,
                                    j as int,
                                ));
                            }
                            assert(label@ + seq!['.'] + name@ =~= label@ + "."@ + name@);
                        },
                        None => {},
                    }
                }
            },
            DirectiveOrBlock::Comment(_) => {},
        }
        assert(diags_view(diags@) =~= diags_view(before) + job_entry_diags(*job, job.directives@[i as int]));
        i = i + 1;
        assert(diags_view(diags@) =~= diags_view(old(diags)@) + job_body_diags(*job, i as int));
    }
}

/// Checks every operator-facing block for unknown or removed directive keys
/// and unknown sub-block names.
pub fn validate_blocks(ast: &Croniqfile, diags: &mut Vec<Diagnostic>)
    ensures
        diags_view(final(diags)@) == diags_view(old(diags)@) + blocks_diags(
            ast.items@,
            ast.items@.len() as int,
        ),
{
    let mut i: usize = 0;
    while i < ast.items.len()
        invariant
            i <= ast.items@.len(),
            diags_view(diags@) == diags_view(old(diags)@) + blocks_diags(ast.items@, i as int),
        decreases ast.items@.len() - i,
    {
        let ghost before = diags@;
        match &ast.items[i] {
            Item::Server(b) => check_directives("server", &server_table(), &b.directives, diags),
            Item::PullApi(b) => check_directives("pull_api", &pull_api_table(), &b.directives, diags),
            Item::Mcp(b) => check_directives("mcp", &mcp_table(), &b.directives, diags),
            Item::Policy(b) => check_directives("policy", &policy_table(), &b.directives, diags),
            Item::Oidc(b) => check_directives("oidc", &oidc_table(), &b.directives, diags),
            Item::Smtp(b) => check_directives("smtp", &smtp_table(), &b.directives, diags),
            Item::Defaults(b) => {
                let keys = defaults_table();
                let blocks = defaults_blocks_table();
                let ghost items = b.directives@;
                let mut j: usize = 0;
                while j < b.directives.len()
                    invariant
                        j <= items.len(),
                        items == b.directives@,
                        strs(keys@) == defaults_keys(),
                        table_view(blocks@) == defaults_blocks(),
                        diags_view(diags@) == diags_view(before) + defaults_diags(items, j as int),
                    decreases items.len() - j,
                {
                    match &b.directives[j] {
                        DirectiveOrBlock::Directive(d) => check_directive("defaults", &keys, d, diags),
                        DirectiveOrBlock::Block(nb) => check_named_block("defaults", &blocks, nb, diags),
                        DirectiveOrBlock::Comment(_) => {},
                    }
                    j = j + 1;
                    assert(diags_view(diags@) =~= diags_view(before) + defaults_diags(items, j as int));
                }
            },
            Item::Observability(b) => {
                let blocks = observability_blocks_table();
                check_sub_blocks("observability", &blocks, &b.sub_blocks, diags);
            },
            Item::Auth(b) => {
                let blocks = auth_blocks_table();
                check_sub_blocks("auth", &blocks, &b.sub_blocks, diags);
            },
            Item::ConcurrencyGroup(b) => {
                let label = joined("concurrency_group ", "", b.name.value.as_str());
                proof {
                    reveal_strlit("");
                }
                assert(label@ =~= "concurrency_group "@ + b.name.value@);
                check_directives(label.as_str(), &concurrency_group_table(), &b.directives, diags);
            },
            Item::Job(job) => check_job_body(job, diags),
            _ => {},
        }
        assert(diags_view(diags@) =~= diags_view(before) + item_block_diags(ast.items@[i as int]));
        i = i + 1;
        assert(diags_view(diags@) =~= diags_view(old(diags)@) + blocks_diags(ast.items@, i as int));
    }
}

/// Checks a list of sub-blocks of `parent`.
fn check_sub_blocks(
    parent: &str,
    table: &Vec<(&str, Vec<&str>)>,
    bs: &Vec<NamedBlock>,
    diags: &mut Vec<Diagnostic>,
)
    ensures
        diags_view(final(diags)@) == diags_view(old(diags)@) + sub_blocks_diags(
            parent@,
            table_view(table@),
            bs@,
            bs@.len() as int,
        ),
{
    let mut i: usize = 0;
    while i < bs.len()
        invariant
            i <= bs@.len(),
            diags_view(diags@) == diags_view(old(diags)@) + sub_blocks_diags(
                parent@,
                table_view(table@),
                bs@,
                i as int,
            ),
        decreases bs@.len() - i,
    {
        check_named_block(parent, table, &bs[i], diags);
        i = i + 1;
        assert(diags_view(diags@) =~= diags_view(old(diags)@) + sub_blocks_diags(
            parent@,
            table_view(table@),
            bs@,
            i as int,
        ));
    }
}

} // verus!
