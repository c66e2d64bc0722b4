//! Dates and times of the game: deadlines and the current time.
//!
//! A [`Timestamp`] is a date and time without time zone, held as the seconds
//! since 1970-01-01 00:00:00 and the nanoseconds within that second, the way
//! chrono's `NaiveDateTime` reports it. Ordering, differences and adding whole
//! minutes are plain arithmetic on these numbers; reading a deadline from text
//! and writing a date as text are chrono's.
use vstd::prelude::*;
use chrono::{DateTime, NaiveDateTime};

verus! {

/// Seconds of the earliest date and time that chrono represents
/// (-262143-01-01 00:00:00).
pub const EARLIEST_SECS: i64 = -8_334_601_228_800i64;

/// Seconds of the last whole second that chrono represents
/// (262142-12-31 23:59:59).
pub const LATEST_SECS: i64 = 8_210_266_876_799i64;

/// Nanoseconds in a second.
pub const NANOS_PER_SEC: u32 = 1_000_000_000u32;

/// A date and time without time zone.
#[derive(Clone, Copy, PartialEq, Eq, Structural, Debug)]
pub struct Timestamp {
    /// Seconds since 1970-01-01 00:00:00.
    pub secs: i64,
    /// Nanoseconds within that second.
    pub nanos: u32,
}

impl Timestamp {
    /// A date and time that chrono can represent, outside any leap second.
    pub open spec fn wf(self) -> bool {
        EARLIEST_SECS <= self.secs && self.secs <= LATEST_SECS && self.nanos < NANOS_PER_SEC
    }

    /// Nanoseconds since 1970-01-01 00:00:00.
    pub open spec fn total_nanos(self) -> int {
        self.secs * 1_000_000_000 + self.nanos
    }

    /// The timestamp of `secs` and `nanos`, where it is well formed.
    pub fn new(secs: i64, nanos: u32) -> (r: Option<Timestamp>)
        ensures
            r is Some <==> (Timestamp { secs, nanos }).wf(),
            r matches Some(t) ==> t.secs == secs && t.nanos == nanos,
    {
        if EARLIEST_SECS <= secs && secs <= LATEST_SECS && nanos < NANOS_PER_SEC {
            Some(Timestamp { secs, nanos })
        } else {
            None
        }
    }

    /// `self` comes strictly before `other`.
    pub fn is_before(&self, other: &Timestamp) -> (b: bool)
        ensures
            b == (self.secs < other.secs || (self.secs == other.secs && self.nanos < other.nanos)),
    {
        self.secs < other.secs || (self.secs == other.secs && self.nanos < other.nanos)
    }

    /// Nanoseconds from `self` to `later` (negative where `later` comes first).
    pub fn nanos_until(&self, later: &Timestamp) -> (d: i128)
        ensures
            d == later.total_nanos() - self.total_nanos(),
    {
        (later.secs as i128 - self.secs as i128) * 1_000_000_000i128 + (later.nanos as i128
            - self.nanos as i128)
    }
}

/// Well-formed timestamps are ordered as their nanoseconds are.
pub proof fn lemma_order_by_nanos(a: Timestamp, b: Timestamp)
    requires
        a.wf(),
        b.wf(),
    ensures
        (a.secs < b.secs || (a.secs == b.secs && a.nanos < b.nanos)) <==> a.total_nanos()
            < b.total_nanos(),
{
    if a.secs < b.secs {
        assert(a.secs * 1_000_000_000 + 1_000_000_000 <= b.secs * 1_000_000_000) by (nonlinear_arith)
            requires
                a.secs < b.secs,
        ;
    } else if a.secs > b.secs {
        assert(b.secs * 1_000_000_000 + 1_000_000_000 <= a.secs * 1_000_000_000) by (nonlinear_arith)
            requires
                b.secs < a.secs,
        ;
    }
}

/// `t` moved by `minutes` whole minutes.
pub open spec fn plus_minutes(t: Timestamp, minutes: int) -> Timestamp {
    Timestamp { secs: (t.secs + 60 * minutes) as i64, nanos: t.nanos }
}

/// Moving a well-formed `t` by `minutes` stays within chrono's range.
pub open spec fn minutes_fit(t: Timestamp, minutes: int) -> bool {
    t.wf() && EARLIEST_SECS <= t.secs + 60 * minutes && t.secs + 60 * minutes <= LATEST_SECS
}

/// `t` moved by `minutes` whole minutes, as chrono adds a `Duration` of
/// minutes to a date and time outside a leap second.
pub fn add_minutes(t: &Timestamp, minutes: i32) -> (r: Timestamp)
    requires
        minutes_fit(*t, minutes as int),
    ensures
        r == plus_minutes(*t, minutes as int),
        r.wf(),
{
    Timestamp { secs: t.secs + 60 * (minutes as i64), nanos: t.nanos }
}

/// Tells whether `t` moved by `minutes` stays within chrono's range.
pub fn fits_after_minutes(t: &Timestamp, minutes: i32) -> (b: bool)
    ensures
        b == minutes_fit(*t, minutes as int),
{
    if !(EARLIEST_SECS <= t.secs && t.secs <= LATEST_SECS && t.nanos < NANOS_PER_SEC) {
        return false;
    }
    let s: i64 = t.secs + 60 * (minutes as i64);
    EARLIEST_SECS <= s && s <= LATEST_SECS
}

// ---------------------------------------------------------------------------
// chrono
// ---------------------------------------------------------------------------

/// What `NaiveDateTime::parse_from_str(text, format)` gives, as seconds and
/// nanoseconds.
pub uninterp spec fn chrono_parse(text: Seq<char>, format: Seq<char>) -> Option<(i64, u32)>;

/// `NaiveDateTime::parse_from_str`: the date and time that `text` writes in
/// `format`, or `None` where it does not. A date and time that chrono builds
/// lies within its range; nothing more is claimed of it.
#[verifier::external_body]
fn chrono_parse_from_str(text: &str, format: &str) -> (r: Option<Timestamp>)
    ensures
        r matches Some(t) ==> chrono_parse(text@, format@) == Some((t.secs, t.nanos))
            && EARLIEST_SECS <= t.secs && t.secs <= LATEST_SECS,
        r is None ==> chrono_parse(text@, format@) is None,
{
    match NaiveDateTime::parse_from_str(text, format) {
        Ok(d) => Some(Timestamp { secs: d.and_utc().timestamp(), nanos: d.and_utc().timestamp_subsec_nanos() }),
        Err(_) => None,
    }
}

/// How chrono's `Display` writes the date and time of `secs` and `nanos`.
pub uninterp spec fn chrono_text(secs: i64, nanos: u32) -> Seq<char>;

/// `Display` of `NaiveDateTime` (`YYYY-MM-DD HH:MM:SS`, with a fraction where
/// there are nanoseconds), for a timestamp within chrono's range, where
/// `DateTime::from_timestamp` always succeeds.
#[verifier::external_body]
fn chrono_to_string(t: &Timestamp) -> (s: String)
    requires
        t.wf(),
    ensures
        s@ == chrono_text(t.secs, t.nanos),
{
    match DateTime::from_timestamp(t.secs, t.nanos) {
        Some(d) => d.naive_utc().to_string(),
        None => String::new(),
    }
}

/// The format in which an administrator writes a deadline.
pub open spec fn deadline_format() -> Seq<char> {
    "%Y-%m-%d %H:%M"@
}

/// Reads a deadline written as `YYYY-MM-DD HH:MM`.
pub fn parse_deadline(text: &str) -> (r: Option<Timestamp>)
    ensures
        r matches Some(t) ==> chrono_parse(text@, deadline_format()) == Some((t.secs, t.nanos))
            && EARLIEST_SECS <= t.secs && t.secs <= LATEST_SECS,
        r is None ==> chrono_parse(text@, deadline_format()) is None,
{
    chrono_parse_from_str(text, "%Y-%m-%d %H:%M")
}

/// Writes `t` as chrono writes a date and time.
pub fn datetime_text(t: &Timestamp) -> (s: String)
    requires
        t.wf(),
    ensures
        s@ == chrono_text(t.secs, t.nanos),
{
    chrono_to_string(t)
}

} // verus!
