//! What `croniq dead-letters` and `croniq dead-letters-inspect` print for
//! the dead letters read from the store. Opening the store is the caller's.

use vstd::prelude::*;
use crate::credentials::{pad_right, push_padded, push_repeat, repeat_char};
use crate::text::{chars_of, decimal, decimal_string, push_chars, push_decimal, push_str, utf8_len};

verus! {

/// Characters of an error shown in the listing.
pub const ERROR_PREVIEW_CHARS: usize = 40;

/// A dead letter as the listing shows it.
#[derive(Debug, Clone)]
pub struct DeadLetterRow {
    pub id: String,
    pub job_key: String,
    pub attempt: u64,
    pub error: String,
}

/// `s` right-aligned in a column of `w` characters (`{:>w}`).
pub open spec fn pad_left(s: Seq<char>, w: nat) -> Seq<char> {
    if s.len() >= w {
        s
    } else {
        repeat_char(' ', (w - s.len()) as nat) + s
    }
}

/// Appends `s` right-aligned in a column of `w` characters.
fn push_padded_left(out: &mut String, s: &str, w: usize)
    ensures
        final(out)@ == old(out)@ + pad_left(s@, w as nat),
{
    let cs = chars_of(s);
    if cs.len() < w {
        push_repeat(out, ' ', w - cs.len());
    }
    push_str(out, s);
    assert(final(out)@ =~= old(out)@ + pad_left(s@, w as nat));
}

/// The error as the listing shows it: its first forty characters, marked
/// with `…` when the error is longer than forty bytes.
pub open spec fn error_preview(e: Seq<char>) -> Seq<char> {
    let p = e.take(if e.len() < ERROR_PREVIEW_CHARS { e.len() as int } else { ERROR_PREVIEW_CHARS as int });
    if utf8_len(e) > ERROR_PREVIEW_CHARS {
        p + "…"@
    } else {
        p
    }
}

/// One row of the listing.
pub open spec fn dead_letter_row(d: DeadLetterRow) -> Seq<char> {
    pad_right(d.id@, 38) + " "@ + pad_right(d.job_key@, 32) + " "@ + pad_left(decimal(d.attempt as nat), 7)
        + " "@ + error_preview(d.error@) + "\n"@
}

/// The first `n` rows of the listing.
pub open spec fn dead_letter_rows(ds: Seq<DeadLetterRow>, n: int) -> Seq<char>
    decreases n,
{
    if n <= 0 {
        Seq::empty()
    } else {
        dead_letter_rows(ds, n - 1) + dead_letter_row(ds[n - 1])
    }
}

/// What `croniq dead-letters` prints: a note when there are none (naming
/// the job when one was asked for); else a table of id, job, attempt and
/// error preview, the total, and how to inspect the first one.
pub open spec fn dead_letters_listing_text(job_key: Option<Seq<char>>, ds: Seq<DeadLetterRow>) -> Seq<char> {
    if ds.len() == 0 {
        match job_key {
            Some(k) => "No dead letters for job '"@ + k + "'.\n"@,
            None => "Dead letter queue is empty.\n"@,
        }
    } else {
        pad_right("DEAD LETTER ID"@, 38) + " "@ + pad_right("JOB KEY"@, 32) + " "@ + pad_left("ATTEMPT"@, 7)
            + " ERROR\n"@ + repeat_char('-', 100) + "\n"@ + dead_letter_rows(ds, ds.len() as int) + "\n"@
            + "Total: "@ + decimal(ds.len()) + " dead letter(s)\n"@ + "\nRun `croniq dead-letters-inspect "@
            + ds[0].id@ + " --data-dir <path>` for full details.\n"@
    }
}

/// Appends one row of the listing.
fn push_dead_letter_row(s: &mut String, d: &DeadLetterRow)
    ensures
        final(s)@ == old(s)@ + dead_letter_row(*d),
{
    let es = d.error.as_str();
    proof {
        crate::text::lemma_str_len(es);
    }
    push_padded(s, d.id.as_str(), 38);
    push_str(s, " ");
    push_padded(s, d.job_key.as_str(), 32);
    push_str(s, " ");
    let attempt = decimal_string(d.attempt);
    push_padded_left(s, attempt.as_str(), 7);
    push_str(s, " ");
    let ec = chars_of(d.error.as_str());
    let n: usize = if ec.len() < ERROR_PREVIEW_CHARS { ec.len() } else { ERROR_PREVIEW_CHARS };
    let head = crate::text::slice_chars(ec.as_slice(), 0, n);
    push_chars(s, head.as_slice());
    if es.as_bytes().len() > ERROR_PREVIEW_CHARS {
        push_str(s, "…");
    }
    push_str(s, "\n");
    assert(head@ =~= d.error@.take(n as int));
    assert(s@ =~= old(s)@ + dead_letter_row(*d));
}

/// The text of `croniq dead-letters` for the letters read with the given
/// job filter.
pub fn dead_letters_listing(job_key: Option<&str>, letters: &[DeadLetterRow]) -> (s: String)
    ensures
        s@ == dead_letters_listing_text(
            match job_key {
                Some(k) => Some(k@),
                None => None,
            },
            letters@,
        ),
{
    let mut s = String::new();
    if letters.len() == 0 {
        match job_key {
            Some(k) => {
                push_str(&mut s, "No dead letters for job '");
                push_str(&mut s, k);
                push_str(&mut s, "'.\n");
            },
            None => push_str(&mut s, "Dead letter queue is empty.\n"),
        }
        return s;
    }
    push_padded(&mut s, "DEAD LETTER ID", 38);
    push_str(&mut s, " ");
    push_padded(&mut s, "JOB KEY", 32);
    push_str(&mut s, " ");
    push_padded_left(&mut s, "ATTEMPT", 7);
    push_str(&mut s, " ERROR\n");
    push_repeat(&mut s, '-', 100);
    push_str(&mut s, "\n");
    let ghost head = s@;
    let mut i: usize = 0;
    while i < letters.len()
        invariant
            i <= letters@.len(),
            s@ == head + dead_letter_rows(letters@, i as int),
        decreases letters@.len() - i,
    {
        push_dead_letter_row(&mut s, &letters[i]);
        i = i + 1;
    }
    push_str(&mut s, "\n");
    push_str(&mut s, "Total: ");
    push_decimal(&mut s, letters.len() as u64);
    push_str(&mut s, " dead letter(s)\n");
    push_str(&mut s, "\nRun `croniq dead-letters-inspect ");
    push_str(&mut s, letters[0].id.as_str());
    push_str(&mut s, " --data-dir <path>` for full details.\n");
    assert(s@ =~= dead_letters_listing_text(
        match job_key {
            Some(k) => Some(k@),
            None => None,
        },
        letters@,
    ));
    s
}

/// A dead letter with everything `dead-letters-inspect` shows.
#[derive(Debug, Clone)]
pub struct DeadLetterDetails {
    pub id: String,
    pub execution_id: String,
    pub job_key: String,
    pub fire_at: String,
    pub attempt: u64,
    pub dead_reason: String,
    pub created_at: String,
    pub expires_at: Option<String>,
    pub error: String,
    pub metadata: Vec<(String, String)>,
}

/// The first `n` metadata entries, one `  key: value` line each.
pub open spec fn metadata_lines(m: Seq<(String, String)>, n: int) -> Seq<char>
    decreases n,
{
    if n <= 0 {
        Seq::empty()
    } else {
        metadata_lines(m, n - 1) + "  "@ + m[n - 1].0@ + ": "@ + m[n - 1].1@ + "\n"@
    }
}

/// What `croniq dead-letters-inspect` prints: every field, the expiry when
/// there is one, the full error, and the metadata when there is any.
pub open spec fn details_text(d: DeadLetterDetails) -> Seq<char> {
    "Dead Letter Details\n"@ + repeat_char('=', 60) + "\n"@ + "ID:            "@ + d.id@ + "\n"@
        + "Execution ID:  "@ + d.execution_id@ + "\n"@ + "Job Key:       "@ + d.job_key@ + "\n"@
        + "Fire At:       "@ + d.fire_at@ + "\n"@ + "Attempt:       "@ + decimal(d.attempt as nat) + "\n"@
        + "Dead Reason:   "@ + d.dead_reason@ + "\n"@ + "Created At:    "@ + d.created_at@ + "\n"@
        + match d.expires_at {
        Some(e) => "Expires At:    "@ + e@ + "\n"@,
        None => Seq::empty(),
    } + "\n"@ + "Error:\n"@ + d.error@ + "\n"@ + if d.metadata@.len() == 0 {
        Seq::empty()
    } else {
        "\n"@ + "Metadata:\n"@ + metadata_lines(d.metadata@, d.metadata@.len() as int)
    }
}

/// Appends one labelled line.
fn push_line(s: &mut String, label: &str, value: &str)
    ensures
        final(s)@ == old(s)@ + label@ + value@ + "\n"@,
{
    push_str(s, label);
    push_str(s, value);
    push_str(s, "\n");
    assert(s@ =~= old(s)@ + label@ + value@ + "\n"@);
}

/// The text of `croniq dead-letters-inspect`.
pub fn dead_letter_details(d: &DeadLetterDetails) -> (s: String)
    ensures
        s@ == details_text(*d),
{
    let mut s = String::new();
    push_str(&mut s, "Dead Letter Details\n");
    push_repeat(&mut s, '=', 60);
    push_str(&mut s, "\n");
    push_line(&mut s, "ID:            ", d.id.as_str());
    push_line(&mut s, "Execution ID:  ", d.execution_id.as_str());
    push_line(&mut s, "Job Key:       ", d.job_key.as_str());
    push_line(&mut s, "Fire At:       ", d.fire_at.as_str());
    let attempt = decimal_string(d.attempt);
    push_line(&mut s, "Attempt:       ", attempt.as_str());
    push_line(&mut s, "Dead Reason:   ", d.dead_reason.as_str());
    push_line(&mut s, "Created At:    ", d.created_at.as_str());
    let ghost before_expiry = s@;
    if let Some(e) = &d.expires_at {
        push_line(&mut s, "Expires At:    ", e.as_str());
    }
    push_str(&mut s, "\n");
    push_str(&mut s, "Error:\n");
    push_str(&mut s, d.error.as_str());
    push_str(&mut s, "\n");
    let ghost before_meta = s@;
    if d.metadata.len() > 0 {
        push_str(&mut s, "\n");
        push_str(&mut s, "Metadata:\n");
        let ghost head = s@;
        let mut i: usize = 0;
        while i < d.metadata.len()
            invariant
                i <= d.metadata@.len(),
                s@ == head + metadata_lines(d.metadata@, i as int),
            decreases d.metadata@.len() - i,
        {
            push_str(&mut s, "  ");
            push_str(&mut s, d.metadata[i].0.as_str());
            push_str(&mut s, ": ");
            push_str(&mut s, d.metadata[i].1.as_str());
            push_str(&mut s, "\n");
            i = i + 1;
            assert(s@ =~= head + metadata_lines(d.metadata@, i as int));
        }
    }
    assert(s@ =~= details_text(*d));
    s
}

} // verus!
