//! Instants and calendar days, and the calls into `chrono` that read and
//! write them.
use vstd::prelude::*;

verus! {

/// Earliest second that `chrono` can represent (`-262143-01-01T00:00:00Z`).
pub const MIN_SECS: i64 = -8334601228800i64;

/// Latest second that `chrono` can represent (`+262142-12-31T23:59:59Z`).
pub const MAX_SECS: i64 = 8210266876799i64;

/// Day number (counted from 0001-01-01 as day 1) of the earliest representable date.
pub const MIN_CE_DAY: i32 = -95746129i32;

/// Day number (counted from 0001-01-01 as day 1) of the latest representable date.
pub const MAX_CE_DAY: i32 = 95745399i32;

/// Day number (counted from 0001-01-01 as day 1) of 1970-01-01.
pub const EPOCH_CE_DAY: i64 = 719163i64;

pub const SECS_PER_DAY: i64 = 86400i64;

/// A point in time in UTC: seconds since 1970-01-01T00:00:00Z and the
/// nanoseconds past that second. As in `chrono`, a leap second is written
/// as second 59 of its minute with 1_000_000_000 or more nanoseconds.
#[derive(Clone, Copy, Debug, PartialEq, Eq, Structural)]
pub struct Instant {
    pub secs: i64,
    pub nanos: u32,
}

/// A calendar day in the proleptic Gregorian calendar, as its day number
/// counted from 0001-01-01 (day 1).
#[derive(Clone, Copy, Debug, PartialEq, Eq, Structural)]
pub struct Date {
    pub ce_day: i32,
}

impl Instant {
    /// The instant lies in the range that `chrono` represents.
    pub open spec fn wf(self) -> bool {
        &&& MIN_SECS <= self.secs <= MAX_SECS
        &&& (self.nanos < 1_000_000_000 || (self.nanos < 2_000_000_000 && self.secs % 60 == 59))
    }

    pub open spec fn spec_le(self, other: Instant) -> bool {
        self.secs < other.secs || (self.secs == other.secs && self.nanos <= other.nanos)
    }

    pub open spec fn spec_lt(self, other: Instant) -> bool {
        self.secs < other.secs || (self.secs == other.secs && self.nanos < other.nanos)
    }

    /// `self` is no later than `other`.
    pub fn le(&self, other: &Instant) -> (r: bool)
        ensures
            r == self.spec_le(*other),
    {
        self.secs < other.secs || (self.secs == other.secs && self.nanos <= other.nanos)
    }

    /// `self` is earlier than `other`.
    pub fn lt(&self, other: &Instant) -> (r: bool)
        ensures
            r == self.spec_lt(*other),
    {
        self.secs < other.secs || (self.secs == other.secs && self.nanos < other.nanos)
    }
}

impl Date {
    pub open spec fn wf(self) -> bool {
        MIN_CE_DAY <= self.ce_day <= MAX_CE_DAY
    }
}

/// Seconds since the epoch at which day `d` begins.
pub open spec fn spec_day_start_secs(d: Date) -> int {
    (d.ce_day - EPOCH_CE_DAY) * SECS_PER_DAY
}

/// The first instant of a day, 00:00:00 UTC.
pub fn day_start(d: Date) -> (r: Instant)
    requires
        d.wf(),
    ensures
        r.secs == spec_day_start_secs(d),
        r.nanos == 0,
        r.wf(),
{
    let secs: i64 = (d.ce_day as i64 - EPOCH_CE_DAY) * SECS_PER_DAY;
    Instant { secs, nanos: 0 }
}

/// The last whole second of a day, 23:59:59 UTC.
pub fn day_end(d: Date) -> (r: Instant)
    requires
        d.wf(),
    ensures
        r.secs == spec_day_start_secs(d) + 86399,
        r.nanos == 0,
        r.wf(),
{
    let secs: i64 = (d.ce_day as i64 - EPOCH_CE_DAY) * SECS_PER_DAY + 86399;
    Instant { secs, nanos: 0 }
}

/// The UTC calendar day on which an instant falls.
pub open spec fn spec_date_of(i: Instant) -> Date {
    Date { ce_day: ((i.secs as int) / (SECS_PER_DAY as int) + EPOCH_CE_DAY) as i32 }
}

/// The UTC calendar day on which an instant falls.
pub fn date_of(i: Instant) -> (r: Date)
    requires
        i.wf(),
    ensures
        r == spec_date_of(i),
        r.wf(),
{
    // Shift to a non-negative count so that division rounds down.
    let shifted: u64 = (i.secs - MIN_SECS) as u64;
    let days: u64 = shifted / (SECS_PER_DAY as u64);
    assert(days == (i.secs - MIN_SECS) / (SECS_PER_DAY as int));
    assert((i.secs - MIN_SECS) / (SECS_PER_DAY as int) == (i.secs as int) / (SECS_PER_DAY as int) + 96465292) by {
        let q = (i.secs as int) / (SECS_PER_DAY as int);
        let r = (i.secs as int) % (SECS_PER_DAY as int);
        vstd::arithmetic::div_mod::lemma_fundamental_div_mod(i.secs as int, SECS_PER_DAY as int);
        vstd::arithmetic::div_mod::lemma_fundamental_div_mod_converse(
            i.secs - MIN_SECS, SECS_PER_DAY as int, q + 96465292, r,
        );
    }
    let ce: i64 = days as i64 + MIN_CE_DAY as i64;
    Date { ce_day: ce as i32 }
}

/// Three-letter lower-case English name of the weekday of day number `ce`
/// (day 1, 0001-01-01, was a Monday).
pub open spec fn weekday_name(ce: int) -> Seq<char> {
    let w = (ce - 1) % 7;
    if w == 0 {
        seq!['m', 'o', 'n']
    } else if w == 1 {
        seq!['t', 'u', 'e']
    } else if w == 2 {
        seq!['w', 'e', 'd']
    } else if w == 3 {
        seq!['t', 'h', 'u']
    } else if w == 4 {
        seq!['f', 'r', 'i']
    } else if w == 5 {
        seq!['s', 'a', 't']
    } else {
        seq!['s', 'u', 'n']
    }
}

/// The weekday name of a day, as `weekday_name` gives it.
pub fn weekday_of(d: Date) -> (r: Vec<char>)
    requires
        d.wf(),
    ensures
        r@ == weekday_name(d.ce_day as int),
{
    let shifted: u64 = (d.ce_day as i64 - MIN_CE_DAY as i64) as u64;
    // shifted + 3 exceeds ce_day - 1 by 95746133, a multiple of 7.
    let w: u64 = (shifted + 3) % 7;
    assert(w == (d.ce_day - 1) % 7) by {
        let q = (d.ce_day - 1) / 7;
        let r = (d.ce_day - 1) % 7;
        vstd::arithmetic::div_mod::lemma_fundamental_div_mod((d.ce_day - 1) as int, 7);
        vstd::arithmetic::div_mod::lemma_fundamental_div_mod_converse(
            (shifted + 3) as int, 7, q + 13678019, r,
        );
    }
    if w == 0 {
        vec!['m', 'o', 'n']
    } else if w == 1 {
        vec!['t', 'u', 'e']
    } else if w == 2 {
        vec!['w', 'e', 'd']
    } else if w == 3 {
        vec!['t', 'h', 'u']
    } else if w == 4 {
        vec!['f', 'r', 'i']
    } else if w == 5 {
        vec!['s', 'a', 't']
    } else {
        vec!['s', 'u', 'n']
    }
}

/// What `chrono` gives for `instant + delta_secs` when `delta_secs` is a
/// whole number of days: a leap second first loses its extra second, moving
/// forward when the shift is positive and backward onto the next second when
/// it is negative (`NaiveTime::overflowing_add_signed`).
pub open spec fn spec_shift(base: Instant, delta: int) -> (int, int) {
    if base.nanos >= 1_000_000_000 {
        if delta > 0 {
            (base.secs + delta, base.nanos - 1_000_000_000)
        } else if delta < 0 {
            (base.secs + 1 + delta, base.nanos - 1_000_000_000)
        } else {
            (base.secs as int, base.nanos as int)
        }
    } else {
        (base.secs + delta, base.nanos as int)
    }
}

/// The shifted instant stays in the range that `chrono` represents.
pub open spec fn can_shift(base: Instant, delta: int) -> bool {
    MIN_SECS <= spec_shift(base, delta).0 <= MAX_SECS
}

/// Calls `chrono`'s `DateTime<Utc> + TimeDelta::days(days)`. From its source
/// (`NaiveTime::overflowing_add_signed`, then the date moved by whole days):
/// the result is `spec_shift` of the base; it panics only when the result
/// leaves the representable range, which `can_shift` rules out (and with it
/// a day count too large for `TimeDelta::days`).
#[verifier::external_body]
pub(crate) fn add_days(base: Instant, days: i64) -> (r: Instant)
    requires
        base.wf(),
        can_shift(base, days * SECS_PER_DAY),
    ensures
        r.secs == spec_shift(base, days * SECS_PER_DAY).0,
        r.nanos == spec_shift(base, days * SECS_PER_DAY).1,
        r.wf(),
{
    let dt = chrono::DateTime::from_timestamp(base.secs, base.nanos).unwrap() + chrono::TimeDelta::days(days);
    Instant { secs: dt.timestamp(), nanos: dt.timestamp_subsec_nanos() }
}

/// What `chrono::DateTime::parse_from_rfc3339` gives for a text, as a UTC instant.
pub uninterp spec fn rfc3339_instant(text: Seq<char>) -> Option<Instant>;

/// What `chrono::NaiveDate::parse_from_str` gives for a text and a format.
pub uninterp spec fn date_parsed_with_format(text: Seq<char>, format: Seq<char>) -> Option<Date>;

/// What `chrono::DateTime::<Utc>::to_rfc3339` writes for an instant.
pub uninterp spec fn rfc3339_text(i: Instant) -> Seq<char>;

/// What `chrono::DateTime::<Utc>::format` writes for an instant and a format.
pub uninterp spec fn instant_formatted(i: Instant, format: Seq<char>) -> Seq<char>;

/// Calls `chrono::DateTime::parse_from_rfc3339` and reads the UTC timestamp
/// and its nanoseconds off the result. Claims that the result is the named
/// function of the text and, since `chrono` never builds a date-time outside
/// its range, that it lies in range.
#[verifier::external_body]
pub(crate) fn parse_rfc3339(s: &str) -> (r: Option<Instant>)
    ensures
        r == rfc3339_instant(s@),
        r matches Some(i) ==> i.wf(),
{
    match chrono::DateTime::parse_from_rfc3339(s) {
        Ok(dt) => Some(Instant { secs: dt.timestamp(), nanos: dt.timestamp_subsec_nanos() }),
        Err(_) => None,
    }
}

/// Calls `chrono::NaiveDate::parse_from_str` and reads the day number off
/// the result. Claims that the result is the named function of the
/// arguments and lies in `chrono`'s date range.
#[verifier::external_body]
pub(crate) fn parse_date_with_format(s: &str, format: &str) -> (r: Option<Date>)
    ensures
        r == date_parsed_with_format(s@, format@),
        r matches Some(d) ==> d.wf(),
{
    match chrono::NaiveDate::parse_from_str(s, format) {
        Ok(d) => Some(Date { ce_day: chrono::Datelike::num_days_from_ce(&d) }),
        Err(_) => None,
    }
}

/// The instant falls in a year from 0000 to 9999, the years that RFC 3339
/// writes with four digits.
pub open spec fn has_four_digit_year(i: Instant) -> bool {
    -62167219200 <= i.secs <= 253402300799
}

/// Calls `chrono::DateTime::<Utc>::to_rfc3339` on the instant. Claims that
/// the text is the named function of the instant and, for a year from 0000
/// to 9999, that `chrono::DateTime::parse_from_rfc3339` reads the instant
/// back: the date, time, offset `+00:00` and every nonzero nanosecond digit
/// are written, and a leap second as second 60, which the parser reads as
/// the leap second again. (Other years are written with a sign and more
/// digits, which the parser does not read.)
#[verifier::external_body]
pub(crate) fn format_rfc3339(i: Instant) -> (r: String)
    requires
        i.wf(),
    ensures
        r@ == rfc3339_text(i),
        has_four_digit_year(i) ==> rfc3339_instant(r@) == Some(i),
{
    chrono::DateTime::from_timestamp(i.secs, i.nanos).unwrap().to_rfc3339()
}

/// Calls `chrono::DateTime::<Utc>::format` with the `%Y-%m-%d` format (a
/// format that `chrono` cannot read makes `to_string` panic, so no other is
/// admitted). Claims only that the text is the named function of its
/// arguments.
#[verifier::external_body]
pub(crate) fn format_instant(i: Instant, format: &str) -> (r: String)
    requires
        i.wf(),
        format@ == "%Y-%m-%d"@,
    ensures
        r@ == instant_formatted(i, format@),
{
    chrono::DateTime::from_timestamp(i.secs, i.nanos).unwrap().format(format).to_string()
}

/// Reads the clock as `chrono::Utc::now` does (the system time since the
/// epoch, made a date-time by `chrono::DateTime::from_timestamp`), but gives
/// nothing where `Utc::now` would panic: a clock set before 1970 or beyond
/// `chrono`'s range. A reading that comes back lies in that range, at or
/// after the epoch, off any leap second; which instant it is, is not claimed.
#[verifier::external_body]
pub(crate) fn now() -> (r: Option<Instant>)
    ensures
        r matches Some(i) ==> i.wf() && i.secs >= 0 && i.nanos < 1_000_000_000,
{
    let d = std::time::SystemTime::now().duration_since(std::time::UNIX_EPOCH).ok()?;
    let t = chrono::DateTime::from_timestamp(i64::try_from(d.as_secs()).ok()?, d.subsec_nanos())?;
    Some(Instant { secs: t.timestamp(), nanos: t.timestamp_subsec_nanos() })
}

} // verus!
