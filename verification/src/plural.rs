//! Grammatical number for schedule intervals, shared by every emitter that
//! renders an interval as `<count> <unit>`.

use vstd::prelude::*;
use crate::text::{decimal, push_char, push_decimal, push_str};

verus! {

/// `<count> <unit>` with the bare singular unit for a count of one and the
/// `+s` plural otherwise.
pub open spec fn spec_interval_phrase(count: nat, unit: Seq<char>) -> Seq<char> {
    decimal(count) + seq![' '] + unit + (if count == 1 { Seq::<char>::empty() } else { seq!['s'] })
}

/// Formats an interval as `<count> <unit>` with grammatical number
/// (`"1 minute"`, `"5 minutes"`, `"0 minutes"`). `singular_unit` is the
/// singular noun; the plural appends `s`.
pub fn interval_phrase(count: u64, singular_unit: &str) -> (s: String)
    ensures
        s@ == spec_interval_phrase(count as nat, singular_unit@),
{
    let mut s = String::new();
    push_decimal(&mut s, count);
    push_char(&mut s, ' ');
    push_str(&mut s, singular_unit);
    if count != 1 {
        push_char(&mut s, 's');
    }
    s
}

} // verus!
