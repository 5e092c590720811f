//! `--since` durations.

use crate::error::StoreError;
use crate::text::{chars_of, same, slice_text, trim, trim_chars};
use vstd::prelude::*;

verus! {

/// The longest duration that there is, in seconds.
pub const MAX_SINCE_SECONDS: i64 = 9223372036854775;

pub open spec fn is_digit(c: char) -> bool {
    '0' <= c <= '9'
}

/// Where the digits at the start of `s` end.
pub open spec fn digits_end(s: Seq<char>) -> int
    decreases s.len(),
{
    if s.len() == 0 || !is_digit(s[0]) {
        0
    } else {
        1 + digits_end(s.drop_first())
    }
}

/// The number that digits spell.
pub open spec fn digits_value(s: Seq<char>) -> nat
    decreases s.len(),
{
    if s.len() == 0 {
        0
    } else {
        digits_value(s.drop_last()) * 10 + (s.last() as nat - 48) as nat
    }
}

/// How many seconds a unit has.
pub open spec fn unit_seconds(unit: Seq<char>) -> Option<int> {
    if unit == "s"@ {
        Some(1)
    } else if unit == "m"@ {
        Some(60)
    } else if unit == "h"@ {
        Some(3600)
    } else if unit == "d"@ {
        Some(86400)
    } else {
        None
    }
}

/// The seconds of a compact duration such as `30s`, `45m`, `24h`, `7d`: a number
/// and a unit. Anything else is refused, with the text without the white space
/// around it.
pub open spec fn since_of(s: Seq<char>) -> Result<int, Seq<char>> {
    let t = trim(s);
    let k = digits_end(t);
    let n = digits_value(t.take(k));
    match unit_seconds(t.skip(k)) {
        Some(unit) => if k == 0 || n > i64::MAX {
            Err(t)
        } else {
            Ok(n * unit)
        },
        None => Err(t),
    }
}

/// A duration that is not too long to represent.
pub open spec fn since_fits(s: Seq<char>) -> bool {
    since_of(s) matches Ok(n) ==> n <= MAX_SINCE_SECONDS
}

proof fn lemma_digits_end(s: Seq<char>, k: int)
    requires
        0 <= k <= s.len(),
        forall|i: int| 0 <= i < k ==> is_digit(#[trigger] s[i]),
        k == s.len() || !is_digit(s[k]),
    ensures
        digits_end(s) == k,
    decreases s.len(),
{
    if k > 0 {
        assert(is_digit(s[0]));
        let rest = s.drop_first();
        assert forall|i: int| 0 <= i < k - 1 implies is_digit(#[trigger] rest[i]) by {
            assert(is_digit(s[i + 1]));
        }
        lemma_digits_end(rest, k - 1);
    }
}

/// The number and the unit of a duration, or the refused text.
fn since_parts(s: &str) -> (r: Result<(i64, i64), String>)
    ensures
        match r {
            Ok((n, unit)) => since_of(s@) == Ok::<int, Seq<char>>(n * unit) && 0 <= n && (unit == 1
                || unit == 60 || unit == 3600 || unit == 86400),
            Err(t) => since_of(s@) == Err::<int, Seq<char>>(t@),
        },
{
    let t = trim_chars(&chars_of(s));
    let whole = crate::text::text_of(&t);
    let mut k: usize = 0;
    let mut n: i64 = 0;
    let mut fits = true;
    while k < t.len() && '0' <= t[k] && t[k] <= '9'
        invariant
            k <= t@.len(),
            forall|i: int| 0 <= i < k ==> is_digit(#[trigger] t@[i]),
            fits ==> n == digits_value(t@.take(k as int)),
            !fits ==> digits_value(t@.take(k as int)) > i64::MAX,
            0 <= n,
        decreases t@.len() - k,
    {
        let digit: i64 = (t[k] as u32 - 48) as i64;
        proof {
            assert(t@.take(k + 1).drop_last() =~= t@.take(k as int));
        }
        if fits {
            if n > (9223372036854775807 - digit) / 10 {
                fits = false;
            } else {
                n = n * 10 + digit;
            }
        }
        k = k + 1;
    }
    proof {
        lemma_digits_end(t@, k as int);
        assert(t@.skip(k as int) =~= t@.subrange(k as int, t@.len() as int));
    }
    let unit_text = slice_text(&t, k, t.len());
    let unit_name = unit_text.as_str();
    let unit: i64 = if same(unit_name, "s") {
        1
    } else if same(unit_name, "m") {
        60
    } else if same(unit_name, "h") {
        3600
    } else if same(unit_name, "d") {
        86400
    } else {
        return Err(whole);
    };
    if k == 0 || !fits {
        return Err(whole);
    }
    Ok((n, unit))
}

/// Parse a compact duration into seconds.
pub fn parse_since(s: &str) -> (r: Result<i64, StoreError>)
    requires
        since_fits(s@),
    ensures
        match r {
            Ok(n) => since_of(s@) == Ok::<int, Seq<char>>(n as int),
            Err(e) => e matches StoreError::BadSince(t) && since_of(s@) == Err::<int, Seq<char>>(
                t@,
            ),
        },
{
    match since_parts(s) {
        Ok((n, unit)) => {
            assert(n <= n * unit) by (nonlinear_arith)
                requires
                    0 <= n,
                    1 <= unit,
            ;
            Ok(n * unit)
        },
        Err(t) => Err(StoreError::BadSince(t)),
    }
}

/// Parse a compact duration into seconds; `None` when it is too long to
/// represent.
pub fn try_parse_since(s: &str) -> (r: Option<Result<i64, StoreError>>)
    ensures
        match r {
            Some(Ok(n)) => since_of(s@) == Ok::<int, Seq<char>>(n as int) && n <= MAX_SINCE_SECONDS,
            Some(Err(e)) => e matches StoreError::BadSince(t) && since_of(s@) == Err::<
                int,
                Seq<char>,
            >(t@),
            None => !since_fits(s@),
        },
{
    match since_parts(s) {
        Ok((n, unit)) => {
            if n > MAX_SINCE_SECONDS / unit {
                proof {
                    lemma_too_long(n as int, unit as int);
                }
                None
            } else {
                proof {
                    lemma_short_enough(n as int, unit as int);
                }
                Some(parse_since(s))
            }
        },
        Err(_) => Some(parse_since(s)),
    }
}

proof fn lemma_too_long(n: int, unit: int)
    requires
        unit == 1 || unit == 60 || unit == 3600 || unit == 86400,
        n > 9223372036854775int / unit,
    ensures
        n * unit > 9223372036854775,
{
}

proof fn lemma_short_enough(n: int, unit: int)
    requires
        unit == 1 || unit == 60 || unit == 3600 || unit == 86400,
        n <= 9223372036854775int / unit,
    ensures
        n * unit <= 9223372036854775,
{
}

} // verus!
