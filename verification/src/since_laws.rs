//! What durations and times guarantee.

use crate::since::{digits_end, digits_value, is_digit, since_of, unit_seconds};
use crate::text::trim;
use crate::text_laws::{bare, blank, law_trim, law_white_space, written};
use crate::time::{earlier, valid_time, whole_seconds};
use vstd::prelude::*;

verus! {

/// How many seconds a unit has.
pub open spec fn seconds_in(unit: char) -> Option<int> {
    if unit == 's' {
        Some(1)
    } else if unit == 'm' {
        Some(60)
    } else if unit == 'h' {
        Some(3600)
    } else if unit == 'd' {
        Some(86400)
    } else {
        None
    }
}

/// A text is one of decimal digits.
pub open spec fn all_digits(s: Seq<char>) -> bool {
    forall|i: int| 0 <= i < s.len() ==> '0' <= #[trigger] s[i] <= '9'
}

proof fn lemma_written(digits: Seq<char>)
    requires
        all_digits(digits),
    ensures
        digits_value(digits) == written(digits),
        written(digits) >= 0,
    decreases digits.len(),
{
    if digits.len() > 0 {
        let init = digits.drop_last();
        assert('0' <= digits[digits.len() - 1] <= '9');
        assert forall|i: int| 0 <= i < init.len() implies '0' <= #[trigger] init[i] <= '9' by {
            assert('0' <= digits[i] <= '9');
        }
        lemma_written(init);
    }
}

proof fn lemma_digits_end(digits: Seq<char>, rest: Seq<char>)
    requires
        all_digits(digits),
        rest.len() > 0 ==> !is_digit(rest[0]),
    ensures
        digits_end(digits + rest) == digits.len(),
    decreases digits.len(),
{
    let s = digits + rest;
    if digits.len() == 0 {
        assert(s =~= rest);
    } else {
        assert('0' <= digits[0] <= '9');
        let tail = digits.drop_first();
        assert forall|i: int| 0 <= i < tail.len() implies '0' <= #[trigger] tail[i] <= '9' by {
            assert('0' <= digits[i + 1] <= '9');
        }
        lemma_digits_end(tail, rest);
        assert(s.drop_first() =~= tail + rest);
    }
}

proof fn lemma_digits_before(s: Seq<char>)
    ensures
        0 <= digits_end(s) <= s.len(),
        all_digits(s.take(digits_end(s))),
        digits_end(s) < s.len() ==> !is_digit(s[digits_end(s)]),
    decreases s.len(),
{
    if s.len() > 0 && is_digit(s[0]) {
        let rest = s.drop_first();
        lemma_digits_before(rest);
        let k = digits_end(s);
        assert forall|i: int| 0 <= i < k implies '0' <= #[trigger] s.take(k)[i] <= '9' by {
            if i > 0 {
                assert(rest.take(k - 1)[i - 1] == s[i]);
            }
        }
        if k < s.len() {
            assert(rest[k - 1] == s[k]);
        }
    }
}

proof fn lemma_units()
    ensures
        "s"@ == seq!['s'],
        "m"@ == seq!['m'],
        "h"@ == seq!['h'],
        "d"@ == seq!['d'],
{
    reveal_strlit("s");
    reveal_strlit("m");
    reveal_strlit("h");
    reveal_strlit("d");
    assert("s"@ =~= seq!['s']);
    assert("m"@ =~= seq!['m']);
    assert("h"@ =~= seq!['h']);
    assert("d"@ =~= seq!['d']);
}

proof fn lemma_unit(unit: Seq<char>)
    ensures
        unit.len() == 1 ==> unit_seconds(unit) == seconds_in(unit[0]),
        unit.len() != 1 ==> unit_seconds(unit) is None,
{
    lemma_units();
    if unit.len() == 1 {
        assert(unit =~= seq![unit[0]]);
        assert(seq![unit[0]][0] == unit[0]);
        assert(seq!['s'][0] == 's' && seq!['m'][0] == 'm' && seq!['h'][0] == 'h' && seq!['d'][0]
            == 'd');
    }
}

/// A number and a unit, with white space around them or without, is a duration of
/// that many units, unless the number does not fit in 64 bits.
pub proof fn law_durations_are_read(
    before: Seq<char>,
    digits: Seq<char>,
    unit: char,
    after: Seq<char>,
)
    requires
        blank(before),
        blank(after),
        digits.len() > 0,
        all_digits(digits),
        seconds_in(unit) is Some,
    ensures
        written(digits) <= i64::MAX ==> since_of(before + (digits + seq![unit]) + after) == Ok::<
            int,
            Seq<char>,
        >(written(digits) * seconds_in(unit)->0),
        written(digits) > i64::MAX ==> since_of(before + (digits + seq![unit]) + after) == Err::<
            int,
            Seq<char>,
        >(digits + seq![unit]),
{
    let core = digits + seq![unit];
    assert('0' <= digits[0] <= '9');
    law_white_space(digits[0]);
    law_white_space(unit);
    assert(core[0] == digits[0]);
    assert(core.last() == unit);
    assert(bare(core));
    law_trim(before, core, after);
    lemma_digits_end(digits, seq![unit]);
    assert(core.take(digits.len() as int) =~= digits);
    assert(core.skip(digits.len() as int) =~= seq![unit]);
    lemma_unit(seq![unit]);
    lemma_written(digits);
}

/// Only a number and a unit is a duration; for anything else the error tells the
/// text without the white space around it.
pub proof fn law_only_durations_are_read(s: Seq<char>)
    ensures
        match since_of(s) {
            Ok(n) => exists|digits: Seq<char>, unit: char|
                #![trigger digits.push(unit)]
                trim(s) == digits.push(unit) && digits.len() > 0 && all_digits(digits)
                    && seconds_in(unit) is Some && written(digits) <= i64::MAX && n == written(
                    digits,
                ) * seconds_in(unit)->0,
            Err(t) => t == trim(s),
        },
{
    if let Ok(n) = since_of(s) {
        let t = trim(s);
        let k = digits_end(t);
        lemma_digits_before(t);
        let digits = t.take(k);
        let unit = t.skip(k);
        lemma_unit(unit);
        lemma_written(digits);
        assert(t =~= digits.push(unit[0]));
        assert(digits.push(unit[0]) == t);
    }
}

/// Going back and forth: a time that is some seconds earlier is that many seconds
/// before, at the same fraction of a second; a leap second is left behind first.
pub proof fn law_earlier_times_are_before(t: (i64, u32), seconds: int)
    requires
        seconds >= 0,
    ensures
        t.1 < 1_000_000_000 ==> earlier(t, seconds) == (t.0 - seconds, t.1),
        t.1 >= 1_000_000_000 && seconds > 0 ==> earlier(t, seconds).0 == t.0 + 1 - seconds
            && earlier(t, seconds).1 + 1_000_000_000 == t.1,
        seconds == 0 ==> earlier(t, seconds) == (t.0 as int, t.1),
{
}

/// Going back twice is going back by the sum.
pub proof fn law_earlier_times_add_up(t: (i64, u32), a: int, b: int)
    requires
        t.1 < 1_000_000_000,
        0 <= a,
        0 <= b,
        i64::MIN <= earlier(t, a).0 <= i64::MAX,
    ensures
        earlier((earlier(t, a).0 as i64, earlier(t, a).1), b) == earlier(t, a + b),
{
}

/// To the second, a time loses its fraction and nothing else.
pub proof fn law_whole_seconds_lose_the_fraction(t: (i64, u32))
    ensures
        whole_seconds(t).0 == t.0,
        t.1 < 1_000_000_000 ==> whole_seconds(t).1 == 0,
        t.1 >= 1_000_000_000 ==> whole_seconds(t).1 == 1_000_000_000,
{
}

/// The times there are: from the first second of the first year to the last one of
/// the last, with a fraction, or a leap second at the end of a minute.
pub proof fn law_times_have_bounds(secs: i64, nanos: u32)
    ensures
        valid_time(secs, nanos) <==> -8334601228800 <= secs <= 8210266876799 && (nanos
            < 1_000_000_000 || nanos < 2_000_000_000 && secs as int % 60 == 59),
{
}

} // verus!
