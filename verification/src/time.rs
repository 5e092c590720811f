//! Points in time, formatted and parsed by `chrono`.

use vstd::prelude::*;

verus! {

/// Timestamp format used in directory names. Colons are awkward in paths, so
/// the usual `:` separators are `-`; the trailing `Z` marks UTC.
pub const DIR_TIME_FORMAT: &'static str = "%Y-%m-%dT%H-%M-%SZ";

/// A calendar day.
pub const DAY_FORMAT: &'static str = "%Y-%m-%d";

/// A point in time, to the second.
pub const SECOND_FORMAT: &'static str = "%Y-%m-%dT%H:%M:%SZ";

/// The first second that `chrono` can represent.
pub const FIRST_SECOND: i64 = -8334601228800;

/// The last second that `chrono` can represent.
pub const LAST_SECOND: i64 = 8210266876799;

/// `secs` seconds since 1970 and `nanos` nanoseconds are a point in time. More
/// than 999999999 nanoseconds mark a leap second, at the end of a minute.
pub open spec fn valid_time(secs: i64, nanos: u32) -> bool {
    &&& FIRST_SECOND <= secs <= LAST_SECOND
    &&& nanos < 2_000_000_000
    &&& nanos >= 1_000_000_000 ==> secs as int % 60 == 59
}

/// A point in time in UTC.
#[derive(Debug, Clone, Copy, PartialEq, Eq)]
pub struct Timestamp {
    secs: i64,
    nanos: u32,
}

impl View for Timestamp {
    type V = (i64, u32);

    closed spec fn view(&self) -> (i64, u32) {
        (self.secs, self.nanos)
    }
}

/// `a` is not later than `b`.
pub open spec fn time_le(a: (i64, u32), b: (i64, u32)) -> bool {
    a.0 < b.0 || (a.0 == b.0 && a.1 <= b.1)
}

/// The point `seconds` seconds before `t`. From within a leap second the way back
/// starts at the second that follows it, so that the result is in no leap second.
pub open spec fn earlier(t: (i64, u32), seconds: int) -> (int, u32) {
    if t.1 >= 1_000_000_000 && seconds > 0 {
        (t.0 + 1 - seconds, (t.1 - 1_000_000_000) as u32)
    } else {
        (t.0 - seconds, t.1)
    }
}

impl Timestamp {
    #[verifier::type_invariant]
    spec fn is_valid(self) -> bool {
        valid_time(self.secs, self.nanos)
    }

    /// The point in time `secs` seconds after 1970 and `nanos` nanoseconds.
    pub fn new(secs: i64, nanos: u32) -> (r: Option<Timestamp>)
        ensures
            match r {
                Some(t) => valid_time(secs, nanos) && t@ == (secs, nanos),
                None => !valid_time(secs, nanos),
            },
    {
        if secs < FIRST_SECOND || secs > LAST_SECOND || nanos >= 2_000_000_000 {
            return None;
        }
        let since_first: u64 = (secs - FIRST_SECOND) as u64;
        if nanos >= 1_000_000_000 && since_first % 60 != 59 {
            return None;
        }
        Some(Timestamp { secs, nanos })
    }

    pub fn secs(&self) -> (r: i64)
        ensures
            r == self@.0,
            valid_time(self@.0, self@.1),
    {
        proof {
            use_type_invariant(self);
        }
        self.secs
    }

    pub fn nanos(&self) -> (r: u32)
        ensures
            r == self@.1,
            valid_time(self@.0, self@.1),
    {
        proof {
            use_type_invariant(self);
        }
        self.nanos
    }

    /// Whether this point in time is not later than `other`.
    pub fn le(&self, other: &Timestamp) -> (r: bool)
        ensures
            r == time_le(self@, other@),
    {
        self.secs < other.secs || (self.secs == other.secs && self.nanos <= other.nanos)
    }

    /// The point in time `seconds` seconds before this one, if there is one.
    pub fn earlier_by(&self, seconds: i64) -> (r: Option<Timestamp>)
        requires
            0 <= seconds,
        ensures
            match r {
                Some(t) => (t@.0 as int, t@.1) == earlier(self@, seconds as int),
                None => earlier(self@, seconds as int).0 < FIRST_SECOND,
            },
    {
        let secs: i64 = self.secs();
        let nanos: u32 = self.nanos();
        if nanos >= 1_000_000_000 && seconds > 0 {
            if seconds - 1 > secs - FIRST_SECOND {
                None
            } else {
                Timestamp::new(secs - (seconds - 1), nanos - 1_000_000_000)
            }
        } else if seconds > secs - FIRST_SECOND {
            None
        } else {
            Timestamp::new(secs - seconds, nanos)
        }
    }

    /// The text of this point in time in `format`.
    pub(crate) fn format(&self, format: &str) -> (r: String)
        requires
            known_format(format@),
        ensures
            r@ == time_text(self@.0, self@.1, format@),
            format@ == DIR_TIME_FORMAT@ ==> starts_year(r@) && !r@.contains('_') && !r@.contains(
                '/',
            ) && parsed_time(
                r@,
                DIR_TIME_FORMAT@,
            ) == Some(whole_seconds(self@)),
    {
        format_time(self.secs(), self.nanos(), format)
    }

    /// `to_rfc3339_opts(SecondsFormat::Secs, true)`.
    pub(crate) fn rfc3339_seconds(&self) -> (r: String)
        ensures
            r@ == rfc3339_seconds_text(self@.0, self@.1),
    {
        format_rfc3339_seconds(self.secs(), self.nanos())
    }

    /// `to_rfc3339`.
    pub(crate) fn rfc3339(&self) -> (r: String)
        ensures
            r@ == rfc3339_text(self@.0, self@.1),
    {
        format_rfc3339(self.secs(), self.nanos())
    }

    /// The point in time that a text in `format` names.
    pub(crate) fn parse(text: &str, format: &str) -> (r: Option<Timestamp>)
        requires
            known_format(format@),
        ensures
            match r {
                Some(t) => parsed_time(text@, format@) == Some(t@),
                None => parsed_time(text@, format@) is None,
            },
    {
        match parse_time(text, format) {
            Some((secs, nanos)) => Timestamp::new(secs, nanos),
            None => None,
        }
    }
}

/// A point in time without its fraction of a second; a leap second stays one.
pub open spec fn whole_seconds(t: (i64, u32)) -> (i64, u32) {
    (
        t.0,
        if t.1 >= 1_000_000_000 {
            1_000_000_000
        } else {
            0
        },
    )
}

/// The formats that this library uses.
pub open spec fn known_format(format: Seq<char>) -> bool {
    format == DIR_TIME_FORMAT@ || format == DAY_FORMAT@ || format == SECOND_FORMAT@
}

/// The text starts as a year does: with a digit or a sign.
pub open spec fn starts_year(s: Seq<char>) -> bool {
    s.len() > 0 && ('0' <= s[0] <= '9' || s[0] == '+' || s[0] == '-')
}

/// How `DateTime::format` prints a point in time.
pub uninterp spec fn time_text(secs: i64, nanos: u32, format: Seq<char>) -> Seq<char>;

/// `DateTime::format` in UTC. In the format of directory names the text starts
/// with a year and has neither an underscore nor a slash, and parsing it gives
/// back the point in time to the second.
#[verifier::external_body]
fn format_time(secs: i64, nanos: u32, format: &str) -> (r: String)
    requires
        valid_time(secs, nanos),
        known_format(format@),
    ensures
        r@ == time_text(secs, nanos, format@),
        format@ == DIR_TIME_FORMAT@ ==> starts_year(r@) && !r@.contains('_') && !r@.contains(
                '/',
            ) && parsed_time(
            r@,
            DIR_TIME_FORMAT@,
        ) == Some(whole_seconds((secs, nanos))),
{
    chrono::DateTime::from_timestamp(secs, nanos).unwrap().format(format).to_string()
}

/// How `DateTime::to_rfc3339_opts` prints a point in time to the second.
pub uninterp spec fn rfc3339_seconds_text(secs: i64, nanos: u32) -> Seq<char>;

/// `DateTime::to_rfc3339_opts` in UTC, to the second, with a `Z`.
#[verifier::external_body]
fn format_rfc3339_seconds(secs: i64, nanos: u32) -> (r: String)
    requires
        valid_time(secs, nanos),
    ensures
        r@ == rfc3339_seconds_text(secs, nanos),
{
    let seconds = chrono::SecondsFormat::Secs;
    chrono::DateTime::from_timestamp(secs, nanos).unwrap().to_rfc3339_opts(seconds, true)
}

/// How `DateTime::to_rfc3339` prints a point in time.
pub uninterp spec fn rfc3339_text(secs: i64, nanos: u32) -> Seq<char>;

/// `DateTime::to_rfc3339` in UTC.
#[verifier::external_body]
fn format_rfc3339(secs: i64, nanos: u32) -> (r: String)
    requires
        valid_time(secs, nanos),
    ensures
        r@ == rfc3339_text(secs, nanos),
{
    chrono::DateTime::from_timestamp(secs, nanos).unwrap().to_rfc3339()
}

/// What `NaiveDateTime::parse_from_str` reads from a text, taken as UTC.
pub uninterp spec fn parsed_time(text: Seq<char>, format: Seq<char>) -> Option<(i64, u32)>;

/// `NaiveDateTime::parse_from_str`, taken as UTC: what it reads is a point in
/// time.
#[verifier::external_body]
fn parse_time(text: &str, format: &str) -> (r: Option<(i64, u32)>)
    requires
        known_format(format@),
    ensures
        r == parsed_time(text@, format@),
        r matches Some(t) ==> valid_time(t.0, t.1),
{
    let naive = chrono::NaiveDateTime::parse_from_str(text, format).ok()?;
    Some((naive.and_utc().timestamp(), naive.and_utc().timestamp_subsec_nanos()))
}

} // verus!
