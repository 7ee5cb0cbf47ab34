//! Instants and calendar days, with the calendar arithmetic of the `chrono` crate.

use chrono::Datelike;
use chrono::TimeZone;
use vstd::prelude::*;

verus! {

/// The first second that an instant can fall on, counted from 1970-01-01T00:00:00Z.
pub const MIN_SECONDS: i64 = -8_334_601_228_800;

/// The last second that an instant can fall on, counted from 1970-01-01T00:00:00Z.
pub const MAX_SECONDS: i64 = 8_210_266_876_799;

/// The number of the first day of the calendar.
pub const MIN_DAY: i32 = -95_746_129;

/// The number of the last day of the calendar.
pub const MAX_DAY: i32 = 95_745_399;

/// The number of 1970-01-01, where 0001-01-01 is day 1.
pub const EPOCH_DAY: i32 = 719_163;

/// An instant in UTC: whole seconds since 1970-01-01T00:00:00Z, and nanoseconds after that.
///
/// A nanosecond count of a thousand million or more stands for a leap second, which can only come
/// after the last second of a minute.
#[derive(Clone, Copy, PartialEq, Eq, Hash, Debug, Structural)]
pub struct Timestamp {
    pub secs: i64,
    pub nanos: u32,
}

/// A calendar day, by its number: 0001-01-01 is day 1.
#[derive(Clone, Copy, PartialEq, Eq, Hash, Debug, Structural)]
pub struct Day {
    pub number: i32,
}

impl Timestamp {
    /// Whether this is an instant that the calendar has.
    pub open spec fn valid(self) -> bool {
        &&& MIN_SECONDS <= self.secs <= MAX_SECONDS
        &&& self.nanos < 1_000_000_000 || (self.nanos < 2_000_000_000 && self.secs as int % 60 == 59)
    }

    /// Whether this is an instant that the calendar has, and not within a leap second.
    pub open spec fn regular(self) -> bool {
        &&& self.valid()
        &&& self.nanos < 1_000_000_000
    }

    /// Nanoseconds since 1970-01-01T00:00:00Z.
    pub open spec fn total_nanos(self) -> int {
        self.secs * 1_000_000_000 + self.nanos
    }

    /// The order of instants.
    pub open spec fn before(self, other: Self) -> bool {
        self.secs < other.secs || (self.secs == other.secs && self.nanos < other.nanos)
    }

    /// Whether this instant comes before another.
    pub fn is_before(&self, other: &Self) -> (r: bool)
        ensures
            r == self.before(*other),
            r == (self.secs < other.secs || (self.secs == other.secs && self.nanos < other.nanos)),
    {
        self.secs < other.secs || (self.secs == other.secs && self.nanos < other.nanos)
    }

    /// Whether this is an instant that the calendar has, and not within a leap second.
    pub fn is_regular(&self) -> (r: bool)
        ensures
            r == self.regular(),
            r == (-8_334_601_228_800 <= self.secs <= 8_210_266_876_799 && self.nanos < 1_000_000_000),
    {
        MIN_SECONDS <= self.secs && self.secs <= MAX_SECONDS && self.nanos < 1_000_000_000
    }
}

impl Day {
    /// Whether this is a day that the calendar has.
    pub open spec fn valid(self) -> bool {
        MIN_DAY <= self.number <= MAX_DAY
    }
}

/// The calendar day, in UTC, that a second falls on.
pub open spec fn day_number(secs: int) -> int {
    secs / 86_400 + EPOCH_DAY
}

/// The milliseconds from one instant to another, any rest cut off towards zero.
pub open spec fn millis_from_nanos(nanos: int) -> int {
    if nanos >= 0 {
        nanos / 1_000_000
    } else {
        -((-nanos) / 1_000_000)
    }
}

/// The instant, outside leap seconds, that is some nanoseconds after 1970-01-01T00:00:00Z.
pub open spec fn at_nanos(nanos: int) -> Timestamp {
    Timestamp { secs: (nanos / 1_000_000_000) as i64, nanos: (nanos % 1_000_000_000) as u32 }
}

/// `chrono::TimeZone::timestamp_opt` on UTC: the instant, exactly where the calendar has it.
#[verifier::external_body]
pub(crate) fn timestamp_opt(secs: i64, nanos: u32) -> (r: Option<Timestamp>)
    ensures
        r == (if (Timestamp { secs, nanos }).valid() {
            Some(Timestamp { secs, nanos })
        } else {
            None
        }),
{
    let found = chrono::Utc.timestamp_opt(secs, nanos).single()?;
    Some(Timestamp { secs: found.timestamp(), nanos: found.timestamp_subsec_nanos() })
}

/// `DateTime + TimeDelta` of `chrono` on UTC, for a positive whole number of seconds: the seconds
/// are added, and an instant within a leap second leaves it.
#[verifier::external_body]
pub(crate) fn plus_seconds(at: Timestamp, seconds: i64) -> (r: Timestamp)
    requires
        at.valid(),
        0 < seconds,
        at.secs + seconds <= MAX_SECONDS,
    ensures
        r.secs == at.secs + seconds,
        r.nanos == at.nanos as int % 1_000_000_000,
{
    let start = chrono::DateTime::<chrono::Utc>::from_timestamp(at.secs, at.nanos).unwrap();
    let sum = start + chrono::Duration::seconds(seconds);
    Timestamp { secs: sum.timestamp(), nanos: sum.timestamp_subsec_nanos() }
}

/// `DateTime - TimeDelta` of `chrono` on UTC, for whole milliseconds and an instant outside leap
/// seconds: the milliseconds are taken off.
#[verifier::external_body]
pub(crate) fn minus_millis(at: Timestamp, millis: i64) -> (r: Timestamp)
    requires
        at.regular(),
        0 <= millis,
        at.total_nanos() - millis * 1_000_000 >= MIN_SECONDS * 1_000_000_000,
    ensures
        r.total_nanos() == at.total_nanos() - millis * 1_000_000,
        r.nanos < 1_000_000_000,
{
    let start = chrono::DateTime::<chrono::Utc>::from_timestamp(at.secs, at.nanos).unwrap();
    let rest = start - chrono::Duration::milliseconds(millis);
    Timestamp { secs: rest.timestamp(), nanos: rest.timestamp_subsec_nanos() }
}

/// `DateTime - DateTime` of `chrono` and `TimeDelta::num_milliseconds`, for instants outside leap
/// seconds: the milliseconds from `earlier` to `later`, cut off towards zero.
#[verifier::external_body]
pub(crate) fn millis_between(later: Timestamp, earlier: Timestamp) -> (r: i64)
    requires
        later.regular(),
        earlier.regular(),
    ensures
        r == millis_from_nanos(later.total_nanos() - earlier.total_nanos()),
{
    let a = chrono::DateTime::<chrono::Utc>::from_timestamp(later.secs, later.nanos).unwrap();
    let b = chrono::DateTime::<chrono::Utc>::from_timestamp(earlier.secs, earlier.nanos).unwrap();
    (a - b).num_milliseconds()
}

/// `DateTime::date_naive` of `chrono` on UTC: the day that the instant falls on.
#[verifier::external_body]
pub(crate) fn date_of(at: Timestamp) -> (r: Day)
    requires
        at.valid(),
    ensures
        r.number == day_number(at.secs as int),
{
    let found = chrono::DateTime::<chrono::Utc>::from_timestamp(at.secs, at.nanos).unwrap();
    Day { number: found.date_naive().num_days_from_ce() }
}

/// `NaiveDate - TimeDelta` of `chrono`, for whole days: that many days earlier.
#[verifier::external_body]
pub(crate) fn minus_days(day: Day, days: i64) -> (r: Day)
    requires
        day.valid(),
        0 <= days,
        day.number - days >= MIN_DAY,
    ensures
        r.number == day.number - days,
{
    let start = chrono::NaiveDate::from_num_days_from_ce_opt(day.number).unwrap();
    let rest = start - chrono::Duration::days(days);
    Day { number: rest.num_days_from_ce() }
}

/// `NaiveDate::and_hms_opt` of `chrono` at 00:00:00, taken as UTC with
/// `DateTime::from_naive_utc_and_offset`: the first second of the day.
#[verifier::external_body]
pub(crate) fn midnight(day: Day) -> (r: Timestamp)
    requires
        day.valid(),
    ensures
        r.secs == (day.number - EPOCH_DAY) * 86_400,
        r.nanos == 0,
{
    let start = chrono::NaiveDate::from_num_days_from_ce_opt(day.number).unwrap();
    let local = start.and_hms_opt(0, 0, 0).unwrap();
    let at = chrono::DateTime::<chrono::Utc>::from_naive_utc_and_offset(local, chrono::Utc);
    Timestamp { secs: at.timestamp(), nanos: at.timestamp_subsec_nanos() }
}

/// The error of `chrono` for a text that is no date or instant.
#[verifier::external_type_specification]
#[verifier::external_body]
pub struct ExParseError(chrono::ParseError);

/// The instant that `chrono::DateTime::parse_from_rfc3339` reads in a text, in seconds and
/// nanoseconds since 1970-01-01T00:00:00Z.
pub uninterp spec fn rfc3339_instant(text: Seq<char>) -> Option<(i64, u32)>;

/// `chrono::DateTime::parse_from_rfc3339`, taken to UTC.
///
/// A year has four digits there and an offset is less than a day, which bounds the instant.
#[verifier::external_body]
pub(crate) fn parse_rfc3339(text: &str) -> (r: Result<Timestamp, chrono::ParseError>)
    ensures
        match r {
            Ok(at) => {
                &&& rfc3339_instant(text@) == Some((at.secs, at.nanos))
                &&& at.valid()
                &&& -62_167_219_200 - 86_400 < at.secs < 253_402_300_800 + 86_400
            },
            Err(_) => rfc3339_instant(text@) is None,
        },
{
    let found = chrono::DateTime::parse_from_rfc3339(text)?.with_timezone(&chrono::Utc);
    Ok(Timestamp { secs: found.timestamp(), nanos: found.timestamp_subsec_nanos() })
}

/// The number of the day that `chrono::NaiveDate::parse_from_str` reads in a text, by a format.
pub uninterp spec fn formatted_date(text: Seq<char>, format: Seq<char>) -> Option<i32>;

/// `chrono::NaiveDate::parse_from_str`.
#[verifier::external_body]
pub(crate) fn parse_date(text: &str, format: &str) -> (r: Result<Day, chrono::ParseError>)
    ensures
        match r {
            Ok(day) => formatted_date(text@, format@) == Some(day.number) && day.valid(),
            Err(_) => formatted_date(text@, format@) is None,
        },
{
    let found = chrono::NaiveDate::parse_from_str(text, format)?;
    Ok(Day { number: found.num_days_from_ce() })
}

/// How `chrono` displays an instant in UTC.
pub uninterp spec fn instant_text(secs: i64, nanos: u32) -> Seq<char>;

/// `Display` of `chrono::DateTime<Utc>`.
#[verifier::external_body]
pub(crate) fn display_instant(at: Timestamp) -> (r: String)
    requires
        at.valid(),
    ensures
        r@ == instant_text(at.secs, at.nanos),
{
    chrono::DateTime::<chrono::Utc>::from_timestamp(at.secs, at.nanos).unwrap().to_string()
}

/// A second rounded down to a multiple of a number of seconds.
pub open spec fn floored(secs: int, step: int) -> int {
    secs - secs % step
}

/// Rounds a second down to a multiple of a number of seconds, before 1970 too.
pub(crate) fn floor_seconds(secs: i64, step: i64) -> (r: i64)
    requires
        MIN_SECONDS <= secs <= MAX_SECONDS,
        0 < step <= 86_400,
    ensures
        r == floored(secs as int, step as int),
        r <= secs < r + step,
        r as int % step as int == 0,
{
    proof {
        vstd::arithmetic::div_mod::lemma_fundamental_div_mod(secs as int, step as int);
        vstd::arithmetic::div_mod::lemma_mod_multiples_basic(
            secs as int / step as int,
            step as int,
        );
        assert(step * (secs as int / step as int) == (secs as int / step as int) * step)
            by (nonlinear_arith);
    }

    match secs.checked_rem_euclid(step) {
        Some(rest) => secs - rest,
        None => secs,
    }
}

} // verus!
