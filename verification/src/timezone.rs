//! IANA timezone resolution. A zone name that chrono-tz does not know is a
//! hard error everywhere (there is no silent fallback to UTC), and the error
//! carries a did-you-mean suggestion built from the edit distance that the
//! unknown-directive diagnostics use.

use vstd::prelude::*;
use crate::block_directives::{budget, edit_distance, lev};
use crate::text::{chars_of, lower, lower_chars, push_str, string_of, utf8_len};

verus! {

#[verifier::external_type_specification]
#[verifier::external_body]
pub struct ExTz(chrono_tz::Tz);

/// Whether chrono-tz knows `s` as a zone name (case-sensitively).
pub uninterp spec fn is_zone_name(s: Seq<char>) -> bool;

/// The name of the `i`-th zone of chrono-tz's zone list.
pub uninterp spec fn zone_name(i: nat) -> Seq<char>;

/// `s.parse::<chrono_tz::Tz>()`, its error dropped: a lookup of `s` in
/// chrono-tz's zone table. Whether it succeeds is the named result
/// `is_zone_name`; which zone it gives is not stated.
#[verifier::external_body]
fn parse_zone(s: &str) -> (r: Option<chrono_tz::Tz>)
    ensures
        r is Some <==> is_zone_name(s@),
{
    s.parse::<chrono_tz::Tz>().ok()
}

/// `chrono_tz::TZ_VARIANTS.len()`: the zone list of this chrono-tz version
/// holds 597 zones.
#[verifier::external_body]
fn zone_count() -> (n: usize)
    ensures
        n == 597,
{
    chrono_tz::TZ_VARIANTS.len()
}

/// `chrono_tz::TZ_VARIANTS[i].name()`, the `i`-th zone's name; stated as the
/// named result `zone_name`.
#[verifier::external_body]
fn zone_name_at(i: usize) -> (r: &'static str)
    requires
        i < 597,
    ensures
        r@ == zone_name(i as nat),
{
    chrono_tz::TZ_VARIANTS[i].name()
}

/// A `timezone` value that is not an IANA zone name.
#[derive(Debug, Clone, PartialEq, Eq)]
pub struct InvalidTimezone {
    /// The offending value, as written in the config.
    pub value: String,
    /// Nearest known zone name, when the value looks like a typo of one.
    pub suggestion: Option<&'static str>,
}

/// Among the first `n` zones, the one nearest to `value` within the budget,
/// compared ASCII case-insensitively: smallest distance, then fewest bytes,
/// then earliest in chrono-tz's list.
pub open spec fn best_zone(value: Seq<char>, n: int) -> Option<int>
    decreases n,
{
    if n <= 0 {
        None
    } else {
        let b = best_zone(value, n - 1);
        let d = lev(lower(value), lower(zone_name((n - 1) as nat)));
        if d > budget(value) {
            b
        } else {
            match b {
                None => Some(n - 1),
                Some(i) => {
                    let di = lev(lower(value), lower(zone_name(i as nat)));
                    if d < di || (d == di && utf8_len(zone_name((n - 1) as nat)) < utf8_len(
                        zone_name(i as nat),
                    )) {
                        Some(n - 1)
                    } else {
                        Some(i)
                    }
                },
            }
        }
    }
}

/// The suggested zone name for `value`, if any zone is near enough.
pub open spec fn spec_closest_zone(value: Seq<char>) -> Option<Seq<char>> {
    match best_zone(value, 597) {
        Some(i) => Some(zone_name(i as nat)),
        None => None,
    }
}

proof fn lemma_best_zone_range(value: Seq<char>, n: int)
    ensures
        best_zone(value, n) matches Some(i) ==> 0 <= i < n,
    decreases n,
{
    if n > 0 {
        lemma_best_zone_range(value, n - 1);
    }
}

/// Nearest known zone name within a small edit distance, compared ASCII
/// case-insensitively (chrono-tz itself is case-sensitive, so a wrongly
/// cased name is an error whose best fix is the canonical spelling).
fn closest_zone(value: &str) -> (r: Option<&'static str>)
    ensures
        match r {
            Some(z) => spec_closest_zone(value@) == Some(z@),
            None => spec_closest_zone(value@) is None,
        },
{
    let vc = chars_of(value);
    let count = vc.len();
    let limit: usize = if count <= 3 {
        1
    } else if count <= 8 {
        2
    } else {
        3
    };
    let needle = string_of(lower_chars(vc.as_slice()).as_slice());
    let n = zone_count();
    let mut best: Option<usize> = None;
    let mut best_d: usize = 0;
    let mut best_len: usize = 0;
    let mut i: usize = 0;
    while i < n
        invariant
            n == 597,
            i <= n,
            needle@ == lower(value@),
            limit == budget(value@),
            match best {
                Some(b) => best_zone(value@, i as int) == Some(b as int),
                None => best_zone(value@, i as int) is None,
            },
            best matches Some(b) ==> b < i && best_d == lev(lower(value@), lower(zone_name(b as nat)))
                && best_len == utf8_len(zone_name(b as nat)),
        decreases n - i,
    {
        proof {
            lemma_best_zone_range(value@, i as int);
        }
        let name = zone_name_at(i);
        let lowered = string_of(lower_chars(chars_of(name).as_slice()).as_slice());
        let d = edit_distance(needle.as_str(), lowered.as_str());
        proof {
            crate::text::lemma_str_len(name);
        }
        let len = name.as_bytes().len();
        if d <= limit {
            match best {
                None => {
                    best = Some(i);
                    best_d = d;
                    best_len = len;
                },
                Some(_) => {
                    if d < best_d || (d == best_d && len < best_len) {
                        best = Some(i);
                        best_d = d;
                        best_len = len;
                    }
                },
            }
        }
        i = i + 1;
    }
    proof {
        lemma_best_zone_range(value@, 597);
    }
    match best {
        Some(b) => Some(zone_name_at(b)),
        None => None,
    }
}

impl InvalidTimezone {
    /// The error as shown to the operator: the value, then either the
    /// suggestion or the expected shape of a zone name.
    pub fn message(&self) -> (s: String)
        ensures
            s@ == "unknown timezone '"@ + self.value@ + "'"@ + match self.suggestion {
                Some(best) => " — did you mean '"@ + best@ + "'?"@,
                None => " — expected an IANA zone name such as 'Europe/Vienna', 'America/New_York' or 'UTC'"@,
            },
    {
        let mut s = String::new();
        push_str(&mut s, "unknown timezone '");
        push_str(&mut s, self.value.as_str());
        push_str(&mut s, "'");
        match self.suggestion {
            Some(best) => {
                push_str(&mut s, " — did you mean '");
                push_str(&mut s, best);
                push_str(&mut s, "'?");
            },
            None => {
                push_str(
                    &mut s,
                    " — expected an IANA zone name such as 'Europe/Vienna', 'America/New_York' or 'UTC'",
                );
            },
        }
        s
    }
}

/// Parse an IANA zone name (`Europe/Vienna`, `UTC`, …). Strict: there is no
/// fallback to UTC; an unknown name is an error with the nearest known name
/// as a suggestion.
pub fn parse(value: &str) -> (r: Result<chrono_tz::Tz, InvalidTimezone>)
    ensures
        r is Ok <==> is_zone_name(value@),
        r matches Err(e) ==> e.value@ == value@ && match e.suggestion {
            Some(z) => spec_closest_zone(value@) == Some(z@),
            None => spec_closest_zone(value@) is None,
        },
{
    match parse_zone(value) {
        Some(tz) => Ok(tz),
        None => {
            let mut v = String::new();
            push_str(&mut v, value);
            Err(InvalidTimezone { value: v, suggestion: closest_zone(value) })
        },
    }
}

/// Whether `value` names a known IANA zone.
pub fn is_valid(value: &str) -> (r: bool)
    ensures
        r == is_zone_name(value@),
{
    parse_zone(value).is_some()
}

} // verus!
