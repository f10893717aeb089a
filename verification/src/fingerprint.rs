//! A stable fingerprint of a compiled job: the lower-case hex SHA-256 of a
//! canonical JSON text of the job's behavioural fields.
//!
//! The text leaves out the job's identity (`key`, `namespace`, `name`,
//! `variant`) and its cosmetic fields (`description`, `schedule_summary`,
//! `tags`), writes every object with its keys in sorted order (the
//! metadata entries too), and is therefore the same for two jobs that do
//! the same thing at the same times, however their source was spelled.

use vstd::prelude::*;
use crate::ast::{MonthOrdinal, Weekday};
use crate::auth::{hex_encode, hex_lower, sha256, sha256_digest};
use crate::block_directives::char_lt;
use crate::compile::{
    dead_letter_view, json_list, json_members, json_str, opt_view, retry_view, runner_view, strings_view,
    CatchUpPolicy, DeadLetterView, ExecutionMode, JobConfig, RetryView, RunnerView,
};
use crate::placeholders::pairs_view;
use crate::schedule::CompiledSchedule;
use crate::text::{chars_of, decimal, push_char, push_str};

verus! {

/// An optional string in JSON: the string, or `null`.
pub open spec fn jopt(o: Option<Seq<char>>) -> Seq<char> {
    match o {
        Some(s) => json_str(s),
        None => "null"@,
    }
}

/// An optional number in JSON: the number, or `null`.
pub open spec fn jnum(o: Option<u32>) -> Seq<char> {
    match o {
        Some(n) => decimal(n as nat),
        None => "null"@,
    }
}

/// A flag in JSON.
pub open spec fn jbool(b: bool) -> Seq<char> {
    if b {
        "true"@
    } else {
        "false"@
    }
}

/// A list of strings in JSON.
pub open spec fn jarray(v: Seq<Seq<char>>) -> Seq<char> {
    "["@ + json_list(v, v.len() as int) + "]"@
}

/// The name a weekday is serialised under.
pub open spec fn variant_name(d: Weekday) -> Seq<char> {
    match d {
        Weekday::Monday => "Monday"@,
        Weekday::Tuesday => "Tuesday"@,
        Weekday::Wednesday => "Wednesday"@,
        Weekday::Thursday => "Thursday"@,
        Weekday::Friday => "Friday"@,
        Weekday::Saturday => "Saturday"@,
        Weekday::Sunday => "Sunday"@,
    }
}

/// The first `n` weekdays as JSON strings, separated by commas.
pub open spec fn days_json(days: Seq<Weekday>, n: int) -> Seq<char>
    decreases n,
{
    if n <= 0 {
        Seq::empty()
    } else {
        days_json(days, n - 1) + (if n > 1 {
            ","@
        } else {
            Seq::empty()
        }) + json_str(variant_name(days[n - 1]))
    }
}

/// A day of the month in JSON: `{"Day":n}` or `"Last"`.
pub open spec fn ordinal_json(o: MonthOrdinal) -> Seq<char> {
    match o {
        MonthOrdinal::Day(d) => "{\"Day\":"@ + decimal(d as nat) + "}"@,
        MonthOrdinal::Last => "\"Last\""@,
    }
}

/// The first `n` days of the month in JSON, separated by commas.
pub open spec fn ordinals_json(os: Seq<MonthOrdinal>, n: int) -> Seq<char>
    decreases n,
{
    if n <= 0 {
        Seq::empty()
    } else {
        ordinals_json(os, n - 1) + (if n > 1 {
            ","@
        } else {
            Seq::empty()
        }) + ordinal_json(os[n - 1])
    }
}

/// A compiled schedule in JSON, tagged by its variant.
pub open spec fn schedule_json(s: CompiledSchedule) -> Seq<char> {
    match s {
        CompiledSchedule::Interval { seconds } => "{\"Interval\":{\"seconds\":"@ + decimal(seconds as nat) + "}}"@,
        CompiledSchedule::Daily { hour, minute } => "{\"Daily\":{\"hour\":"@ + decimal(hour as nat) + ",\"minute\":"@
            + decimal(minute as nat) + "}}"@,
        CompiledSchedule::Weekdays { days, hour, minute } => "{\"Weekdays\":{\"days\":["@ + days_json(
            days@,
            days@.len() as int,
        ) + "],\"hour\":"@ + decimal(hour as nat) + ",\"minute\":"@ + decimal(minute as nat) + "}}"@,
        CompiledSchedule::Monthly { ordinals, hour, minute } => "{\"Monthly\":{\"hour\":"@ + decimal(hour as nat)
            + ",\"minute\":"@ + decimal(minute as nat) + ",\"ordinals\":["@ + ordinals_json(
            ordinals@,
            ordinals@.len() as int,
        ) + "]}}"@,
        CompiledSchedule::Once { at } => "{\"Once\":{\"at\":"@ + json_str(at@) + "}}"@,
        CompiledSchedule::Disabled => "\"Disabled\""@,
    }
}

/// Dead-letter settings in JSON, keys sorted.
pub open spec fn dead_letter_json(d: DeadLetterView) -> Seq<char> {
    "{\"enabled\":"@ + jbool(d.enabled) + ",\"operator_hint\":"@ + jopt(d.operator_hint) + ",\"replay_max_age\":"@
        + jopt(d.replay_max_age) + ",\"retention\":"@ + jopt(d.retention) + "}"@
}

/// Retry settings in JSON, keys sorted; the jitter as written.
pub open spec fn retry_json(r: RetryView) -> Seq<char> {
    "{\"base\":"@ + jopt(r.base) + ",\"cap\":"@ + jopt(r.cap) + ",\"delay\":"@ + jopt(r.delay) + ",\"jitter\":"@ + jopt(
        r.jitter,
    ) + ",\"max_attempts\":"@ + decimal(r.max_attempts as nat) + ",\"step\":"@ + jopt(r.step) + ",\"strategy\":"@
        + json_str(r.strategy) + "}"@
}

/// Placement constraints in JSON, keys sorted.
pub open spec fn runner_json(r: RunnerView) -> Seq<char> {
    "{\"exclude\":"@ + jarray(r.exclude) + ",\"prefer\":"@ + jarray(r.prefer) + ",\"require\":"@ + jarray(r.require)
        + ",\"sticky\":"@ + jbool(r.sticky) + "}"@
}

/// `x` inserted into the key-sorted `s` before the first entry whose key
/// is not below its own.
pub open spec fn insert_by_key(x: (Seq<char>, Seq<char>), s: Seq<(Seq<char>, Seq<char>)>) -> Seq<(Seq<char>, Seq<char>)>
    decreases s.len(),
{
    if s.len() == 0 {
        seq![x]
    } else if !char_lt(s[0].0, x.0) {
        seq![x] + s
    } else {
        seq![s[0]] + insert_by_key(x, s.drop_first())
    }
}

/// The entries in ascending key order.
pub open spec fn sort_by_key(s: Seq<(Seq<char>, Seq<char>)>) -> Seq<(Seq<char>, Seq<char>)>
    decreases s.len(),
{
    if s.len() == 0 {
        Seq::empty()
    } else {
        insert_by_key(s.last(), sort_by_key(s.drop_last()))
    }
}

/// Metadata in JSON: an object with its keys in ascending order.
pub open spec fn metadata_json(m: Seq<(Seq<char>, Seq<char>)>) -> Seq<char> {
    let sorted = sort_by_key(m);
    "{"@ + json_members(sorted, sorted.len() as int) + "}"@
}

pub open spec fn catch_up_name(c: CatchUpPolicy) -> Seq<char> {
    match c {
        CatchUpPolicy::All => "all"@,
        CatchUpPolicy::Latest => "latest"@,
        CatchUpPolicy::Discard => "none"@,
    }
}

pub open spec fn mode_name(m: ExecutionMode) -> Seq<char> {
    match m {
        ExecutionMode::Queued => "queued"@,
        ExecutionMode::Ephemeral => "ephemeral"@,
    }
}

/// The canonical JSON text of a job's behavioural fields, keys sorted.
pub open spec fn job_canonical(c: JobConfig) -> Seq<char> {
    "{\"catch_up\":"@ + json_str(catch_up_name(c.catch_up)) + ",\"calendar\":"@ + jopt(opt_view(c.calendar))
        + ",\"dead_letter\":"@ + dead_letter_json(dead_letter_view(c.dead_letter)) + ",\"execution_mode\":"@
        + json_str(mode_name(c.execution_mode)) + ",\"keep_last\":"@ + jnum(c.keep_last) + ",\"max_concurrent\":"@
        + jnum(c.max_concurrent) + ",\"max_queue_depth\":"@ + jnum(c.max_queue_depth) + ",\"metadata\":"@
        + metadata_json(pairs_view(c.metadata@)) + ",\"not_after\":"@ + jopt(opt_view(c.not_after))
        + ",\"not_before\":"@ + jopt(opt_view(c.not_before)) + ",\"queue_ttl\":"@ + jopt(opt_view(c.queue_ttl))
        + ",\"retry\":"@ + retry_json(retry_view(c.retry)) + ",\"runner\":"@ + runner_json(runner_view(c.runner))
        + ",\"schedule\":"@ + schedule_json(c.schedule) + ",\"timeout\":"@ + jopt(opt_view(c.timeout))
        + ",\"timezone\":"@ + jopt(opt_view(c.timezone)) + ",\"window\":"@ + jopt(opt_view(c.window)) + "}"@
}

/// The fingerprint: lower-case hex SHA-256 of the UTF-8 canonical text.
pub open spec fn spec_config_hash(c: JobConfig) -> Seq<char> {
    hex_lower(sha256(vstd::utf8::encode_utf8(job_canonical(c))))
}

fn push_opt(out: &mut String, o: &Option<String>)
    ensures
        final(out)@ == old(out)@ + jopt(opt_view(*o)),
{
    match o {
        Some(v) => crate::compile::push_json_str(out, v.as_str()),
        None => push_str(out, "null"),
    }
}

fn push_num(out: &mut String, o: Option<u32>)
    ensures
        final(out)@ == old(out)@ + jnum(o),
{
    match o {
        Some(n) => crate::text::push_decimal(out, n as u64),
        None => push_str(out, "null"),
    }
}

fn push_bool(out: &mut String, b: bool)
    ensures
        final(out)@ == old(out)@ + jbool(b),
{
    if b {
        push_str(out, "true");
    } else {
        push_str(out, "false");
    }
}

fn push_array(out: &mut String, v: &Vec<String>)
    ensures
        final(out)@ == old(out)@ + jarray(strings_view(v@)),
{
    push_str(out, "[");
    crate::compile::push_json_list(out, v.as_slice());
    push_str(out, "]");
}

fn weekday_name(d: Weekday) -> (r: &'static str)
    ensures
        r@ == variant_name(d),
{
    match d {
        Weekday::Monday => "Monday",
        Weekday::Tuesday => "Tuesday",
        Weekday::Wednesday => "Wednesday",
        Weekday::Thursday => "Thursday",
        Weekday::Friday => "Friday",
        Weekday::Saturday => "Saturday",
        Weekday::Sunday => "Sunday",
    }
}

fn push_days(out: &mut String, days: &Vec<Weekday>)
    ensures
        final(out)@ == old(out)@ + days_json(days@, days@.len() as int),
{
    let ghost base = out@;
    let mut i: usize = 0;
    while i < days.len()
        invariant
            i <= days@.len(),
            out@ == base + days_json(days@, i as int),
        decreases days@.len() - i,
    {
        if i > 0 {
            push_str(out, ",");
        }
        crate::compile::push_json_str(out, weekday_name(days[i]));
        i = i + 1;
        assert(out@ =~= base + days_json(days@, i as int));
    }
}

fn push_ordinals(out: &mut String, os: &Vec<MonthOrdinal>)
    ensures
        final(out)@ == old(out)@ + ordinals_json(os@, os@.len() as int),
{
    let ghost base = out@;
    let mut i: usize = 0;
    while i < os.len()
        invariant
            i <= os@.len(),
            out@ == base + ordinals_json(os@, i as int),
        decreases os@.len() - i,
    {
        if i > 0 {
            push_str(out, ",");
        }
        match os[i] {
            MonthOrdinal::Day(d) => {
                push_str(out, "{\"Day\":");
                crate::text::push_decimal(out, d as u64);
                push_str(out, "}");
            },
            MonthOrdinal::Last => push_str(out, "\"Last\""),
        }
        i = i + 1;
        assert(out@ =~= base + ordinals_json(os@, i as int));
    }
}

fn push_schedule(out: &mut String, s: &CompiledSchedule)
    ensures
        final(out)@ == old(out)@ + schedule_json(*s),
{
    let ghost base = out@;
    match s {
        CompiledSchedule::Interval { seconds } => {
            push_str(out, "{\"Interval\":{\"seconds\":");
            crate::text::push_decimal(out, *seconds);
            push_str(out, "}}");
        },
        CompiledSchedule::Daily { hour, minute } => {
            push_str(out, "{\"Daily\":{\"hour\":");
            crate::text::push_decimal(out, *hour as u64);
            push_str(out, ",\"minute\":");
            crate::text::push_decimal(out, *minute as u64);
            push_str(out, "}}");
        },
        CompiledSchedule::Weekdays { days, hour, minute } => {
            push_str(out, "{\"Weekdays\":{\"days\":[");
            push_days(out, days);
            push_str(out, "],\"hour\":");
            crate::text::push_decimal(out, *hour as u64);
            push_str(out, ",\"minute\":");
            crate::text::push_decimal(out, *minute as u64);
            push_str(out, "}}");
        },
        CompiledSchedule::Monthly { ordinals, hour, minute } => {
            push_str(out, "{\"Monthly\":{\"hour\":");
            crate::text::push_decimal(out, *hour as u64);
            push_str(out, ",\"minute\":");
            crate::text::push_decimal(out, *minute as u64);
            push_str(out, ",\"ordinals\":[");
            push_ordinals(out, ordinals);
            push_str(out, "]}}");
        },
        CompiledSchedule::Once { at } => {
            push_str(out, "{\"Once\":{\"at\":");
            crate::compile::push_json_str(out, at.as_str());
            push_str(out, "}}");
        },
        CompiledSchedule::Disabled => push_str(out, "\"Disabled\""),
    }
    assert(out@ =~= base + schedule_json(*s));
}

fn push_dead_letter(out: &mut String, d: &crate::compile::DeadLetterConfig)
    ensures
        final(out)@ == old(out)@ + dead_letter_json(dead_letter_view(*d)),
{
    let ghost base = out@;
    push_str(out, "{\"enabled\":");
    push_bool(out, d.enabled);
    push_str(out, ",\"operator_hint\":");
    push_opt(out, &d.operator_hint);
    push_str(out, ",\"replay_max_age\":");
    push_opt(out, &d.replay_max_age);
    push_str(out, ",\"retention\":");
    push_opt(out, &d.retention);
    push_str(out, "}");
    assert(out@ =~= base + dead_letter_json(dead_letter_view(*d)));
}

fn push_retry(out: &mut String, r: &crate::compile::RetryConfig)
    ensures
        final(out)@ == old(out)@ + retry_json(retry_view(*r)),
{
    let ghost base = out@;
    push_str(out, "{\"base\":");
    push_opt(out, &r.base);
    push_str(out, ",\"cap\":");
    push_opt(out, &r.cap);
    push_str(out, ",\"delay\":");
    push_opt(out, &r.delay);
    push_str(out, ",\"jitter\":");
    push_opt(out, &r.jitter);
    push_str(out, ",\"max_attempts\":");
    crate::text::push_decimal(out, r.max_attempts as u64);
    push_str(out, ",\"step\":");
    push_opt(out, &r.step);
    push_str(out, ",\"strategy\":");
    crate::compile::push_json_str(out, r.strategy.as_str());
    push_str(out, "}");
    assert(out@ =~= base + retry_json(retry_view(*r)));
}

fn push_runner(out: &mut String, r: &crate::compile::RunnerConfig)
    ensures
        final(out)@ == old(out)@ + runner_json(runner_view(*r)),
{
    let ghost base = out@;
    push_str(out, "{\"exclude\":");
    push_array(out, &r.exclude);
    push_str(out, ",\"prefer\":");
    push_array(out, &r.prefer);
    push_str(out, ",\"require\":");
    push_array(out, &r.require);
    push_str(out, ",\"sticky\":");
    push_bool(out, r.sticky);
    push_str(out, "}");
    assert(out@ =~= base + runner_json(runner_view(*r)));
}

/// Whether `a` comes strictly before `b` in character order.
fn key_before(a: &str, b: &str) -> (r: bool)
    ensures
        r == char_lt(a@, b@),
{
    let x = chars_of(a);
    let y = chars_of(b);
    let mut i: usize = 0;
    assert(x@.skip(0) =~= x@);
    assert(y@.skip(0) =~= y@);
    while i < x.len() && i < y.len() && x[i] == y[i]
        invariant
            i <= x@.len(),
            i <= y@.len(),
            char_lt(x@, y@) == char_lt(x@.skip(i as int), y@.skip(i as int)),
        decreases x@.len() - i,
    {
        assert(x@.skip(i as int).drop_first() =~= x@.skip(i + 1));
        assert(y@.skip(i as int).drop_first() =~= y@.skip(i + 1));
        i = i + 1;
    }
    if i == x.len() {
        i < y.len()
    } else if i == y.len() {
        false
    } else {
        x[i] < y[i]
    }
}

/// Inserting at the first position whose key is not below `x`'s.
proof fn lemma_insert_by_key_at(x: (Seq<char>, Seq<char>), s: Seq<(Seq<char>, Seq<char>)>, p: int)
    requires
        0 <= p <= s.len(),
        forall|j: int| 0 <= j < p ==> #[trigger] char_lt(s[j].0, x.0),
        p < s.len() ==> !char_lt(s[p].0, x.0),
    ensures
        insert_by_key(x, s) == s.insert(p, x),
    decreases s.len(),
{
    if s.len() == 0 {
        assert(s.insert(p, x) =~= seq![x]);
    } else if p == 0 {
        assert(s.insert(p, x) =~= seq![x] + s);
    } else {
        lemma_insert_by_key_at(x, s.drop_first(), p - 1);
        assert(s.insert(p, x) =~= seq![s[0]] + s.drop_first().insert(p - 1, x));
    }
}

/// The entries sorted by key.
fn sort_entries(m: &Vec<(String, String)>) -> (r: Vec<(String, String)>)
    ensures
        pairs_view(r@) == sort_by_key(pairs_view(m@)),
{
    let mut out: Vec<(String, String)> = Vec::new();
    let mut i: usize = 0;
    assert(pairs_view(m@).take(0) =~= Seq::<(Seq<char>, Seq<char>)>::empty());
    assert(pairs_view(out@) =~= Seq::<(Seq<char>, Seq<char>)>::empty());
    while i < m.len()
        invariant
            i <= m@.len(),
            pairs_view(out@) == sort_by_key(pairs_view(m@).take(i as int)),
        decreases m@.len() - i,
    {
        let x = (m[i].0.clone(), m[i].1.clone());
        let ghost xv = (x.0@, x.1@);
        assert(xv == pairs_view(m@)[i as int]);
        let mut p: usize = 0;
        while p < out.len() && key_before(out[p].0.as_str(), x.0.as_str())
            invariant
                p <= out@.len(),
                forall|j: int| 0 <= j < p ==> #[trigger] char_lt(pairs_view(out@)[j].0, x.0@),
            decreases out@.len() - p,
        {
            p = p + 1;
        }
        proof {
            lemma_insert_by_key_at(xv, pairs_view(out@), p as int);
            assert(pairs_view(m@).take(i + 1).drop_last() =~= pairs_view(m@).take(i as int));
            assert(pairs_view(m@).take(i + 1).last() == xv);
        }
        let ghost before = out@;
        out.insert(p, x);
        assert(pairs_view(out@) =~= pairs_view(before).insert(p as int, xv));
        i = i + 1;
    }
    assert(pairs_view(m@).take(m@.len() as int) =~= pairs_view(m@));
    out
}

fn push_metadata(out: &mut String, m: &Vec<(String, String)>)
    ensures
        final(out)@ == old(out)@ + metadata_json(pairs_view(m@)),
{
    let sorted = sort_entries(m);
    push_str(out, "{");
    crate::compile::push_json_members(out, &sorted);
    push_str(out, "}");
}

fn catch_up_text(c: CatchUpPolicy) -> (r: &'static str)
    ensures
        r@ == catch_up_name(c),
{
    match c {
        CatchUpPolicy::All => "all",
        CatchUpPolicy::Latest => "latest",
        CatchUpPolicy::Discard => "none",
    }
}

fn mode_text(m: ExecutionMode) -> (r: &'static str)
    ensures
        r@ == mode_name(m),
{
    match m {
        ExecutionMode::Queued => "queued",
        ExecutionMode::Ephemeral => "ephemeral",
    }
}

impl JobConfig {
    /// The canonical JSON text of this job's behavioural fields, keys
    /// sorted at every level.
    #[verifier::rlimit(30)]
    pub fn canonical_json(&self) -> (s: String)
        ensures
            s@ == job_canonical(*self),
    {
        let mut s = String::new();
        push_str(&mut s, "{\"catch_up\":");
        crate::compile::push_json_str(&mut s, catch_up_text(self.catch_up));
        push_str(&mut s, ",\"calendar\":");
        push_opt(&mut s, &self.calendar);
        push_str(&mut s, ",\"dead_letter\":");
        push_dead_letter(&mut s, &self.dead_letter);
        push_str(&mut s, ",\"execution_mode\":");
        crate::compile::push_json_str(&mut s, mode_text(self.execution_mode));
        push_str(&mut s, ",\"keep_last\":");
        push_num(&mut s, self.keep_last);
        push_str(&mut s, ",\"max_concurrent\":");
        push_num(&mut s, self.max_concurrent);
        push_str(&mut s, ",\"max_queue_depth\":");
        push_num(&mut s, self.max_queue_depth);
        push_str(&mut s, ",\"metadata\":");
        push_metadata(&mut s, &self.metadata);
        push_str(&mut s, ",\"not_after\":");
        push_opt(&mut s, &self.not_after);
        push_str(&mut s, ",\"not_before\":");
        push_opt(&mut s, &self.not_before);
        push_str(&mut s, ",\"queue_ttl\":");
        push_opt(&mut s, &self.queue_ttl);
        push_str(&mut s, ",\"retry\":");
        push_retry(&mut s, &self.retry);
        push_str(&mut s, ",\"runner\":");
        push_runner(&mut s, &self.runner);
        push_str(&mut s, ",\"schedule\":");
        push_schedule(&mut s, &self.schedule);
        push_str(&mut s, ",\"timeout\":");
        push_opt(&mut s, &self.timeout);
        push_str(&mut s, ",\"timezone\":");
        push_opt(&mut s, &self.timezone);
        push_str(&mut s, ",\"window\":");
        push_opt(&mut s, &self.window);
        push_str(&mut s, "}");
        assert(s@ =~= job_canonical(*self));
        s
    }

    /// Hex SHA-256 of this job's canonical text: the same across processes
    /// and across edits that change nothing the job does.
    pub fn config_hash(&self) -> (h: String)
        ensures
            h@ == spec_config_hash(*self),
    {
        let text = self.canonical_json();
        let digest = sha256_digest(text.as_str().as_bytes());
        hex_encode(digest.as_slice())
    }
}

// ─── Laws ────────────────────────────────────────────────────────────────────

proof fn lemma_char_lt_irreflexive(a: Seq<char>)
    ensures
        !char_lt(a, a),
    decreases a.len(),
{
    if a.len() > 0 {
        lemma_char_lt_irreflexive(a.drop_first());
    }
}

proof fn lemma_char_lt_transitive(a: Seq<char>, b: Seq<char>, c: Seq<char>)
    requires
        char_lt(a, b),
        char_lt(b, c),
    ensures
        char_lt(a, c),
    decreases a.len(),
{
    if a.len() > 0 && b.len() > 0 && c.len() > 0 && a[0] == b[0] && b[0] == c[0] {
        lemma_char_lt_transitive(a.drop_first(), b.drop_first(), c.drop_first());
    }
}

proof fn lemma_char_lt_total(a: Seq<char>, b: Seq<char>)
    requires
        a != b,
    ensures
        char_lt(a, b) || char_lt(b, a),
    decreases a.len(),
{
    if a.len() > 0 && b.len() > 0 && a[0] == b[0] {
        if a.drop_first() == b.drop_first() {
            assert(a =~= seq![a[0]] + a.drop_first());
            assert(b =~= seq![b[0]] + b.drop_first());
        }
        lemma_char_lt_total(a.drop_first(), b.drop_first());
    } else if a.len() == 0 && b.len() == 0 {
        assert(a =~= b);
    }
}

proof fn lemma_char_lt_asymmetric(a: Seq<char>, b: Seq<char>)
    requires
        char_lt(a, b),
    ensures
        !char_lt(b, a),
{
    if char_lt(b, a) {
        lemma_char_lt_transitive(a, b, a);
        lemma_char_lt_irreflexive(a);
    }
}

/// Keys strictly ascending.
pub open spec fn strictly_sorted(t: Seq<(Seq<char>, Seq<char>)>) -> bool {
    forall|i: int, j: int| 0 <= i < j < t.len() ==> #[trigger] char_lt(t[i].0, t[j].0)
}

/// No key occurs twice.
pub open spec fn distinct_keys(t: Seq<(Seq<char>, Seq<char>)>) -> bool {
    forall|i: int, j: int| 0 <= i < t.len() && 0 <= j < t.len() && i != j ==> #[trigger] t[i].0 != #[trigger] t[j].0
}

proof fn lemma_insert_by_key_contents(x: (Seq<char>, Seq<char>), s: Seq<(Seq<char>, Seq<char>)>)
    ensures
        insert_by_key(x, s).len() == s.len() + 1,
        forall|e: (Seq<char>, Seq<char>)| #[trigger] insert_by_key(x, s).contains(e) <==> (e == x || s.contains(e)),
    decreases s.len(),
{
    if s.len() == 0 {
        assert forall|e: (Seq<char>, Seq<char>)| #[trigger] insert_by_key(x, s).contains(e) <==> (e == x || s.contains(e)) by {
            if insert_by_key(x, s).contains(e) {
                let k = choose|k: int| 0 <= k < insert_by_key(x, s).len() && insert_by_key(x, s)[k] == e;
                assert(k == 0);
            }
            if e == x {
                assert(insert_by_key(x, s)[0] == x);
            }
        }
    } else if !char_lt(s[0].0, x.0) {
        let r = seq![x] + s;
        assert forall|e: (Seq<char>, Seq<char>)| #[trigger] r.contains(e) <==> (e == x || s.contains(e)) by {
            if r.contains(e) {
                let k = choose|k: int| 0 <= k < r.len() && r[k] == e;
                if k > 0 {
                    assert(s[k - 1] == e);
                }
            }
            if e == x {
                assert(r[0] == x);
            }
            if s.contains(e) {
                let k = choose|k: int| 0 <= k < s.len() && s[k] == e;
                assert(r[k + 1] == e);
            }
        }
    } else {
        lemma_insert_by_key_contents(x, s.drop_first());
        let t = insert_by_key(x, s.drop_first());
        let r = seq![s[0]] + t;
        assert forall|e: (Seq<char>, Seq<char>)| #[trigger] r.contains(e) <==> (e == x || s.contains(e)) by {
            if r.contains(e) {
                let k = choose|k: int| 0 <= k < r.len() && r[k] == e;
                if k > 0 {
                    assert(t[k - 1] == e);
                    assert(t.contains(e));
                    if e != x {
                        let m = choose|m: int| 0 <= m < s.drop_first().len() && s.drop_first()[m] == e;
                        assert(s[m + 1] == e);
                    }
                } else {
                    assert(s[0] == e);
                }
            }
            if e == x {
                assert(t.contains(x));
                let m = choose|m: int| 0 <= m < t.len() && t[m] == x;
                assert(r[m + 1] == x);
            }
            if s.contains(e) {
                let k = choose|k: int| 0 <= k < s.len() && s[k] == e;
                if k == 0 {
                    assert(r[0] == e);
                } else {
                    assert(s.drop_first()[k - 1] == e);
                    assert(t.contains(e));
                    let m = choose|m: int| 0 <= m < t.len() && t[m] == e;
                    assert(r[m + 1] == e);
                }
            }
        }
    }
}

proof fn lemma_insert_by_key_sorted(x: (Seq<char>, Seq<char>), s: Seq<(Seq<char>, Seq<char>)>)
    requires
        strictly_sorted(s),
        forall|i: int| 0 <= i < s.len() ==> #[trigger] s[i].0 != x.0,
    ensures
        strictly_sorted(insert_by_key(x, s)),
    decreases s.len(),
{
    if s.len() == 0 {
    } else if !char_lt(s[0].0, x.0) {
        lemma_char_lt_total(s[0].0, x.0);
        let r = seq![x] + s;
        assert forall|i: int, j: int| 0 <= i < j < r.len() implies #[trigger] char_lt(r[i].0, r[j].0) by {
            if i == 0 {
                if j > 1 {
                    assert(char_lt(s[0].0, s[j - 1].0));
                    lemma_char_lt_transitive(x.0, s[0].0, s[j - 1].0);
                }
            } else {
                assert(r[i] == s[i - 1]);
                assert(r[j] == s[j - 1]);
            }
        }
    } else {
        let rest = s.drop_first();
        assert(strictly_sorted(rest)) by {
            assert forall|i: int, j: int| 0 <= i < j < rest.len() implies #[trigger] char_lt(rest[i].0, rest[j].0) by {
                assert(rest[i] == s[i + 1]);
                assert(rest[j] == s[j + 1]);
            }
        }
        lemma_insert_by_key_sorted(x, rest);
        lemma_insert_by_key_contents(x, rest);
        let t = insert_by_key(x, rest);
        let r = seq![s[0]] + t;
        assert forall|i: int, j: int| 0 <= i < j < r.len() implies #[trigger] char_lt(r[i].0, r[j].0) by {
            if i == 0 {
                let e = t[j - 1];
                assert(t.contains(e));
                if e != x {
                    let m = choose|m: int| 0 <= m < rest.len() && rest[m] == e;
                    assert(s[m + 1] == e);
                    assert(char_lt(s[0].0, s[m + 1].0));
                }
            } else {
                assert(r[i] == t[i - 1]);
                assert(r[j] == t[j - 1]);
            }
        }
    }
}

proof fn lemma_sort_by_key_contents(s: Seq<(Seq<char>, Seq<char>)>)
    ensures
        sort_by_key(s).len() == s.len(),
        forall|e: (Seq<char>, Seq<char>)| #[trigger] sort_by_key(s).contains(e) <==> s.contains(e),
    decreases s.len(),
{
    if s.len() > 0 {
        let p = s.drop_last();
        lemma_sort_by_key_contents(p);
        lemma_insert_by_key_contents(s.last(), sort_by_key(p));
        assert forall|e: (Seq<char>, Seq<char>)| #[trigger] sort_by_key(s).contains(e) <==> s.contains(e) by {
            if s.contains(e) {
                let k = choose|k: int| 0 <= k < s.len() && s[k] == e;
                if k < s.len() - 1 {
                    assert(p[k] == e);
                    assert(p.contains(e));
                }
            }
            if p.contains(e) {
                let k = choose|k: int| 0 <= k < p.len() && p[k] == e;
                assert(s[k] == e);
            }
            if e == s.last() {
                assert(s[s.len() - 1] == e);
            }
        }
    }
}

proof fn lemma_sort_by_key_sorted(s: Seq<(Seq<char>, Seq<char>)>)
    requires
        distinct_keys(s),
    ensures
        strictly_sorted(sort_by_key(s)),
    decreases s.len(),
{
    if s.len() > 0 {
        let p = s.drop_last();
        assert(distinct_keys(p)) by {
            assert forall|i: int, j: int| 0 <= i < p.len() && 0 <= j < p.len() && i != j implies #[trigger] p[i].0
                != #[trigger] p[j].0 by {
                assert(p[i] == s[i]);
                assert(p[j] == s[j]);
            }
        }
        lemma_sort_by_key_sorted(p);
        lemma_sort_by_key_contents(p);
        let t = sort_by_key(p);
        assert forall|i: int| 0 <= i < t.len() implies #[trigger] t[i].0 != s.last().0 by {
            assert(t.contains(t[i]));
            let k = choose|k: int| 0 <= k < p.len() && p[k] == t[i];
            assert(s[k] == t[i]);
            assert(s[s.len() - 1] == s.last());
        }
        lemma_insert_by_key_sorted(s.last(), t);
    }
}

proof fn lemma_sorted_unique(a: Seq<(Seq<char>, Seq<char>)>, b: Seq<(Seq<char>, Seq<char>)>)
    requires
        strictly_sorted(a),
        strictly_sorted(b),
        forall|e: (Seq<char>, Seq<char>)| a.contains(e) <==> b.contains(e),
    ensures
        a == b,
    decreases a.len(),
{
    if a.len() == 0 {
        if b.len() > 0 {
            assert(b.contains(b[0]));
        }
        assert(a =~= b);
    } else if b.len() == 0 {
        assert(a.contains(a[0]));
    } else {
        assert(a.contains(a[0]));
        assert(b.contains(b[0]));
        let ka = choose|k: int| 0 <= k < b.len() && b[k] == a[0];
        let kb = choose|k: int| 0 <= k < a.len() && a[k] == b[0];
        if a[0] != b[0] {
            assert(ka > 0 && kb > 0);
            assert(char_lt(b[0].0, b[ka].0));
            assert(char_lt(a[0].0, a[kb].0));
            lemma_char_lt_asymmetric(a[0].0, b[0].0);
        }
        let ra = a.drop_first();
        let rb = b.drop_first();
        assert(strictly_sorted(ra)) by {
            assert forall|i: int, j: int| 0 <= i < j < ra.len() implies #[trigger] char_lt(ra[i].0, ra[j].0) by {
                assert(ra[i] == a[i + 1]);
                assert(ra[j] == a[j + 1]);
            }
        }
        assert(strictly_sorted(rb)) by {
            assert forall|i: int, j: int| 0 <= i < j < rb.len() implies #[trigger] char_lt(rb[i].0, rb[j].0) by {
                assert(rb[i] == b[i + 1]);
                assert(rb[j] == b[j + 1]);
            }
        }
        assert forall|e: (Seq<char>, Seq<char>)| ra.contains(e) <==> rb.contains(e) by {
            if ra.contains(e) {
                let k = choose|k: int| 0 <= k < ra.len() && ra[k] == e;
                assert(a[k + 1] == e);
                assert(char_lt(a[0].0, a[k + 1].0));
                lemma_char_lt_irreflexive(e.0);
                assert(a.contains(e));
                let m = choose|m: int| 0 <= m < b.len() && b[m] == e;
                assert(m > 0);
                assert(rb[m - 1] == e);
            }
            if rb.contains(e) {
                let k = choose|k: int| 0 <= k < rb.len() && rb[k] == e;
                assert(b[k + 1] == e);
                assert(char_lt(b[0].0, b[k + 1].0));
                lemma_char_lt_irreflexive(e.0);
                assert(b.contains(e));
                let m = choose|m: int| 0 <= m < a.len() && a[m] == e;
                assert(m > 0);
                assert(ra[m - 1] == e);
            }
        }
        lemma_sorted_unique(ra, rb);
        assert(a =~= seq![a[0]] + ra);
        assert(b =~= seq![b[0]] + rb);
    }
}

/// Metadata written in any order gives the same canonical text, as long as
/// no key occurs twice: the entries are sorted by key first.
pub proof fn lemma_metadata_order_irrelevant(m1: Seq<(Seq<char>, Seq<char>)>, m2: Seq<(Seq<char>, Seq<char>)>)
    requires
        distinct_keys(m1),
        distinct_keys(m2),
        forall|e: (Seq<char>, Seq<char>)| m1.contains(e) <==> m2.contains(e),
    ensures
        metadata_json(m1) == metadata_json(m2),
{
    lemma_sort_by_key_sorted(m1);
    lemma_sort_by_key_sorted(m2);
    lemma_sort_by_key_contents(m1);
    lemma_sort_by_key_contents(m2);
    lemma_sorted_unique(sort_by_key(m1), sort_by_key(m2));
}

/// Two jobs that do the same thing at the same times have the same
/// fingerprint: their identity (`key`, `namespace`, `name`, `variant`),
/// prose (`description`, `schedule_summary`), tags, and the order of their
/// metadata entries play no part.
pub proof fn lemma_same_behaviour_same_hash(a: JobConfig, b: JobConfig)
    requires
        a.schedule == b.schedule,
        opt_view(a.timezone) == opt_view(b.timezone),
        opt_view(a.calendar) == opt_view(b.calendar),
        opt_view(a.window) == opt_view(b.window),
        opt_view(a.not_before) == opt_view(b.not_before),
        opt_view(a.not_after) == opt_view(b.not_after),
        runner_view(a.runner) == runner_view(b.runner),
        retry_view(a.retry) == retry_view(b.retry),
        opt_view(a.timeout) == opt_view(b.timeout),
        dead_letter_view(a.dead_letter) == dead_letter_view(b.dead_letter),
        distinct_keys(pairs_view(a.metadata@)),
        distinct_keys(pairs_view(b.metadata@)),
        forall|e: (Seq<char>, Seq<char>)| pairs_view(a.metadata@).contains(e) <==> pairs_view(b.metadata@).contains(e),
        a.execution_mode == b.execution_mode,
        a.catch_up == b.catch_up,
        opt_view(a.queue_ttl) == opt_view(b.queue_ttl),
        a.max_queue_depth == b.max_queue_depth,
        a.keep_last == b.keep_last,
        a.max_concurrent == b.max_concurrent,
    ensures
        spec_config_hash(a) == spec_config_hash(b),
{
    lemma_metadata_order_irrelevant(pairs_view(a.metadata@), pairs_view(b.metadata@));
    assert(job_canonical(a) == job_canonical(b));
}

} // verus!
