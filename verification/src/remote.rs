//! What the command line says about a running server's answers: the base
//! URL it talks to, the credential header it sends, and the message that a
//! failed request turns into. Sending the requests is the caller's.

use vstd::prelude::*;
use crate::convert::trim;
use crate::credentials::{pad_right, push_padded, push_repeat, repeat_char};
use crate::text::{chars_of, decimal, decimal_string, push_decimal, push_str};

verus! {

/// `s` without any `c` at its end (`str::trim_end_matches(c)`).
pub open spec fn strip_end(s: Seq<char>, c: char) -> Seq<char>
    decreases s.len(),
{
    if s.len() > 0 && s.last() == c {
        strip_end(s.drop_last(), c)
    } else {
        s
    }
}

/// The server URL that request paths are appended to: without trailing
/// slashes, so that no path starts with `//`.
pub fn base_url(url: &str) -> (r: String)
    ensures
        r@ == strip_end(url@, '/'),
{
    let cs = chars_of(url);
    let mut n: usize = cs.len();
    assert(cs@.subrange(0, n as int) =~= url@);
    while n > 0 && cs[n - 1] == '/'
        invariant
            n <= cs@.len(),
            cs@ == url@,
            strip_end(url@, '/') == strip_end(cs@.subrange(0, n as int), '/'),
        decreases n,
    {
        assert(cs@.subrange(0, n as int).drop_last() =~= cs@.subrange(0, n - 1));
        n = n - 1;
    }
    crate::text::string_of_range(cs.as_slice(), 0, n)
}

/// The `authorization` header value that carries an API key.
pub fn authorization_value(api_key: &str) -> (r: String)
    ensures
        r@ == "ApiKey "@ + api_key@,
{
    let mut r = String::new();
    push_str(&mut r, "ApiKey ");
    push_str(&mut r, api_key);
    r
}

/// The message for a request to `path` that the server answered with a
/// status outside 2xx. `status_text` is the status as it prints (`409
/// Conflict`), `server_message` the `message` field of a JSON body.
/// A 401 says how to pass a credential when none was sent, and that the
/// key may be revoked or expired when one was; a 403 adds the server's
/// message; any other status gives the server's message, else the trimmed
/// body when there is one.
pub open spec fn spec_failure_message(
    path: Seq<char>,
    status: u16,
    status_text: Seq<char>,
    has_key: bool,
    body: Seq<char>,
    server_message: Option<Seq<char>>,
) -> Seq<char> {
    if status == 401 && !has_key {
        path + " requires authentication and no credential was given.\nPass --api-key croniq_… or set CRONIQ_API_KEY."@
    } else if status == 401 {
        path + " rejected the credential (401). The key may have been revoked, or its rotation grace window may have elapsed — check `croniq api-keys list`."@
    } else if status == 403 {
        path + " refused the credential's scopes (403)."@ + match server_message {
            Some(m) => seq![' '] + m,
            None => Seq::empty(),
        }
    } else {
        match server_message {
            Some(m) => path + " failed ("@ + status_text + "): "@ + m,
            None => if trim(body).len() == 0 {
                path + " failed ("@ + status_text + ")"@
            } else {
                path + " failed ("@ + status_text + "): "@ + trim(body)
            },
        }
    }
}

/// The message an operator sees for a failed request.
pub fn failure_message(
    path: &str,
    status: u16,
    status_text: &str,
    has_key: bool,
    body: &str,
    server_message: Option<&str>,
) -> (r: String)
    ensures
        r@ == spec_failure_message(
            path@,
            status,
            status_text@,
            has_key,
            body@,
            match server_message {
                Some(m) => Some(m@),
                None => None,
            },
        ),
{
    let mut r = String::new();
    push_str(&mut r, path);
    if status == 401 && !has_key {
        push_str(
            &mut r,
            " requires authentication and no credential was given.\nPass --api-key croniq_… or set CRONIQ_API_KEY.",
        );
    } else if status == 401 {
        push_str(
            &mut r,
            " rejected the credential (401). The key may have been revoked, or its rotation grace window may have elapsed — check `croniq api-keys list`.",
        );
    } else if status == 403 {
        push_str(&mut r, " refused the credential's scopes (403).");
        if let Some(m) = server_message {
            crate::text::push_char(&mut r, ' ');
            push_str(&mut r, m);
            assert(r@ =~= path@ + " refused the credential's scopes (403)."@ + (seq![' '] + m@));
        } else {
            assert(r@ =~= path@ + " refused the credential's scopes (403)."@ + Seq::<char>::empty());
        }
    } else {
        push_str(&mut r, " failed (");
        push_str(&mut r, status_text);
        match server_message {
            Some(m) => {
                push_str(&mut r, "): ");
                push_str(&mut r, m);
            },
            None => {
                let bc = chars_of(body);
                let t = crate::convert::trim_chars(bc.as_slice());
                if t.len() == 0 {
                    push_str(&mut r, ")");
                } else {
                    push_str(&mut r, "): ");
                    crate::text::push_chars(&mut r, t.as_slice());
                }
            },
        }
    }
    r
}

// ─── Server status, runners and manual triggers ──────────────────────────────

/// Scheduler health as the server reports it.
#[derive(Debug, Clone)]
pub struct Health {
    pub status: String,
    pub queued: u64,
    pub runners_online: u64,
    pub runners_stale: u64,
    pub runners_dead: u64,
}

/// What `croniq status` prints.
pub open spec fn health_message(h: Health) -> Seq<char> {
    "Status:          "@ + h.status@ + "\n"@ + "Queue depth:     "@ + decimal(h.queued as nat) + "\n"@
        + "Runners online:  "@ + decimal(h.runners_online as nat) + "\n"@ + "Runners stale:   "@
        + decimal(h.runners_stale as nat) + "\n"@ + "Runners dead:    "@ + decimal(h.runners_dead as nat)
        + "\n"@
}

/// The text of `croniq status`.
pub fn health_text(h: &Health) -> (s: String)
    ensures
        s@ == health_message(*h),
{
    let mut s = String::new();
    push_str(&mut s, "Status:          ");
    push_str(&mut s, h.status.as_str());
    push_str(&mut s, "\n");
    push_str(&mut s, "Queue depth:     ");
    push_decimal(&mut s, h.queued);
    push_str(&mut s, "\n");
    push_str(&mut s, "Runners online:  ");
    push_decimal(&mut s, h.runners_online);
    push_str(&mut s, "\n");
    push_str(&mut s, "Runners stale:   ");
    push_decimal(&mut s, h.runners_stale);
    push_str(&mut s, "\n");
    push_str(&mut s, "Runners dead:    ");
    push_decimal(&mut s, h.runners_dead);
    push_str(&mut s, "\n");
    assert(s@ =~= health_message(*h));
    s
}

/// A runner's liveness.
#[derive(Debug, Clone, Copy, PartialEq, Eq, Structural)]
pub enum RunnerStatus {
    Online,
    Stale,
    Dead,
}

/// A connected runner as the server lists it.
#[derive(Debug, Clone)]
pub struct RunnerSummary {
    pub runner_id: String,
    pub status: RunnerStatus,
    pub inflight: u64,
    pub max_inflight: u64,
    pub capabilities: Vec<String>,
}

/// A runner status as printed.
pub open spec fn runner_status_text(s: RunnerStatus) -> Seq<char> {
    match s {
        RunnerStatus::Online => "online"@,
        RunnerStatus::Stale => "stale"@,
        RunnerStatus::Dead => "dead"@,
    }
}

/// A runner's capabilities as printed: `(any)` when it has none.
pub open spec fn capabilities_text(caps: Seq<String>) -> Seq<char> {
    if caps.len() == 0 {
        "(any)"@
    } else {
        crate::generator::join_sep(crate::compile::strings_view(caps), ", "@)
    }
}

/// One row of the runner listing.
pub open spec fn runner_row(r: RunnerSummary) -> Seq<char> {
    pad_right(r.runner_id@, 24) + " "@ + pad_right(runner_status_text(r.status), 8) + " "@ + pad_right(
        decimal(r.inflight as nat),
        10,
    ) + " "@ + pad_right(decimal(r.max_inflight as nat), 12) + " "@ + capabilities_text(r.capabilities@)
        + "\n"@
}

/// The first `n` rows of the runner listing.
pub open spec fn runner_rows(rs: Seq<RunnerSummary>, n: int) -> Seq<char>
    decreases n,
{
    if n <= 0 {
        Seq::empty()
    } else {
        runner_rows(rs, n - 1) + runner_row(rs[n - 1])
    }
}

/// What `croniq list-runners` prints: a note when none is connected, else
/// a table of id, status, work in flight, capacity and capabilities.
pub open spec fn runners_listing_text(rs: Seq<RunnerSummary>) -> Seq<char> {
    if rs.len() == 0 {
        "No runners connected.\n"@
    } else {
        pad_right("RUNNER ID"@, 24) + " "@ + pad_right("STATUS"@, 8) + " "@ + pad_right("INFLIGHT"@, 10)
            + " "@ + pad_right("CAPACITY"@, 12) + " CAPABILITIES\n"@ + repeat_char('-', 72) + "\n"@
            + runner_rows(rs, rs.len() as int)
    }
}

/// Appends one row of the runner listing.
fn push_runner_row(s: &mut String, r: &RunnerSummary)
    ensures
        final(s)@ == old(s)@ + runner_row(*r),
{
    push_padded(s, r.runner_id.as_str(), 24);
    push_str(s, " ");
    let status: &str = match r.status {
        RunnerStatus::Online => "online",
        RunnerStatus::Stale => "stale",
        RunnerStatus::Dead => "dead",
    };
    push_padded(s, status, 8);
    push_str(s, " ");
    let inflight = decimal_string(r.inflight);
    push_padded(s, inflight.as_str(), 10);
    push_str(s, " ");
    let max = decimal_string(r.max_inflight);
    push_padded(s, max.as_str(), 12);
    push_str(s, " ");
    if r.capabilities.len() == 0 {
        push_str(s, "(any)");
    } else {
        let caps = crate::generator::join_strings(&r.capabilities, ", ");
        push_str(s, caps.as_str());
    }
    push_str(s, "\n");
    assert(s@ =~= old(s)@ + runner_row(*r));
}

/// The text of `croniq list-runners`.
pub fn runners_listing(runners: &[RunnerSummary]) -> (s: String)
    ensures
        s@ == runners_listing_text(runners@),
{
    let mut s = String::new();
    if runners.len() == 0 {
        push_str(&mut s, "No runners connected.\n");
        return s;
    }
    push_padded(&mut s, "RUNNER ID", 24);
    push_str(&mut s, " ");
    push_padded(&mut s, "STATUS", 8);
    push_str(&mut s, " ");
    push_padded(&mut s, "INFLIGHT", 10);
    push_str(&mut s, " ");
    push_padded(&mut s, "CAPACITY", 12);
    push_str(&mut s, " CAPABILITIES\n");
    push_repeat(&mut s, '-', 72);
    push_str(&mut s, "\n");
    let ghost head = s@;
    let mut i: usize = 0;
    while i < runners.len()
        invariant
            i <= runners@.len(),
            s@ == head + runner_rows(runners@, i as int),
        decreases runners@.len() - i,
    {
        push_runner_row(&mut s, &runners[i]);
        i = i + 1;
    }
    assert(s@ =~= runners_listing_text(runners@));
    s
}

/// What `croniq trigger` prints once the server has queued the job.
pub open spec fn triggered_message(job_key: Seq<char>, execution_id: Seq<char>, queued: u64) -> Seq<char> {
    "Triggered job '"@ + job_key + "'\n"@ + "  execution_id: "@ + execution_id + "\n"@ + "  queue depth:  "@
        + decimal(queued as nat) + "\n"@
}

/// The text of `croniq trigger`.
pub fn triggered_text(job_key: &str, execution_id: &str, queued: u64) -> (s: String)
    ensures
        s@ == triggered_message(job_key@, execution_id@, queued),
{
    let mut s = String::new();
    push_str(&mut s, "Triggered job '");
    push_str(&mut s, job_key);
    push_str(&mut s, "'\n");
    push_str(&mut s, "  execution_id: ");
    push_str(&mut s, execution_id);
    push_str(&mut s, "\n");
    push_str(&mut s, "  queue depth:  ");
    push_decimal(&mut s, queued);
    push_str(&mut s, "\n");
    assert(s@ =~= triggered_message(job_key@, execution_id@, queued));
    s
}

} // verus!
