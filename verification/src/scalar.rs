//! The three scalar kinds that rule parts and events carry: non-negative
//! numbers, wall-clock times and calendar dates.
//!
//! A date is modelled as its day number relative to 1970-01-01, a time as
//! minutes since midnight. All comparisons, the one-day step of streaks and
//! the weekday of a date are plain integer arithmetic on these models; only
//! the conversion from a year/month/day to a day number is delegated to an
//! outside calendar implementation.

use vstd::prelude::*;

use crate::text::{spec_parse_u32, split_on};

verus! {

/// A calendar date, counted in whole days from 1970-01-01 (day 0).
#[derive(Clone, Copy, Debug, PartialEq, Eq, Hash, Structural)]
pub struct Date {
    pub days: i64,
}

/// A wall-clock time of day, counted in minutes since midnight.
#[derive(Clone, Copy, Debug, PartialEq, Eq, Hash, Structural)]
pub struct Time {
    pub minutes: u32,
}

/// What an outside calendar library answers for a year/month/day triple,
/// as a day number relative to 1970-01-01.
pub uninterp spec fn day_number_of(y: int, m: int, d: int) -> int;

/// Whether a year/month/day triple names a real day of the proleptic
/// Gregorian calendar.
pub open spec fn ymd_valid(y: int, m: int, d: int) -> bool {
    1 <= m <= 12 && 1 <= d <= days_in_month(y, m)
}

pub open spec fn is_leap_year(y: int) -> bool {
    (y % 4 == 0 && y % 100 != 0) || y % 400 == 0
}

pub open spec fn days_in_month(y: int, m: int) -> int {
    if m == 2 {
        if is_leap_year(y) {
            29
        } else {
            28
        }
    } else if m == 4 || m == 6 || m == 9 || m == 11 {
        30
    } else {
        31
    }
}

impl Date {
    /// The sentinel date that fills fresh streak buffers: 1970-01-01.
    pub fn epoch() -> (r: Date)
        ensures
            r.days == 0,
    {
        Date { days: 0 }
    }

    /// Relies on chrono's `NaiveDate::from_ymd_opt` (which answers `Some`
    /// exactly for the real days of the calendar, within its supported span
    /// of roughly +/-262000 years) and `NaiveDate::signed_duration_since`
    /// against `NaiveDate::default()` (1970-01-01), whose `num_days` is the
    /// day offset between the two dates. For years 0..=9999 that offset lies
    /// well within a million days of zero.
    #[verifier::external_body]
    pub fn from_ymd(y: i32, m: u32, d: u32) -> (r: Option<Date>)
        requires
            0 <= y <= 9999,
        ensures
            r is Some <==> ymd_valid(y as int, m as int, d as int),
            r is Some ==> r->0.days == day_number_of(y as int, m as int, d as int),
    {
        let nd = chrono::NaiveDate::from_ymd_opt(y, m, d)?;
        let days = nd.signed_duration_since(chrono::NaiveDate::default()).num_days();
        Some(Date { days })
    }

    pub open spec fn spec_next_day(self) -> Date {
        if self.days == i64::MAX {
            self
        } else {
            Date { days: (self.days + 1) as i64 }
        }
    }

    /// The next calendar day (held in place at the far end of the axis,
    /// which no real date reaches).
    pub fn next_day(self) -> (r: Date)
        ensures
            r == self.spec_next_day(),
    {
        if self.days == i64::MAX {
            self
        } else {
            Date { days: self.days + 1 }
        }
    }

    pub open spec fn spec_weekday_from_monday(self) -> int {
        (self.days as int % 7 + 10) % 7 + 1
    }

    /// The ISO weekday of this date, 1 for Monday through 7 for Sunday.
    /// Day 0 (1970-01-01) is a Thursday.
    pub fn weekday_from_monday(self) -> (r: u8)
        ensures
            1 <= r <= 7,
            r as int == self.spec_weekday_from_monday(),
    {
        let rem: i64 = (self.days % 7 + 10) % 7 + 1;
        rem as u8
    }
}

impl Time {
    /// Builds a time of day from hours and minutes.
    pub fn from_hm(h: u32, m: u32) -> (r: Option<Time>)
        ensures
            r is Some <==> (h < 24 && m < 60),
            r is Some ==> r->0.minutes == h * 60 + m,
    {
        if h < 24 && m < 60 {
            Some(Time { minutes: h * 60 + m })
        } else {
            None
        }
    }
}

/// A time-of-day literal `H:MM` or `HH:MM`.
pub open spec fn spec_parse_time(s: Seq<char>) -> Option<Time> {
    let parts = split_on(s, ':');
    if parts.len() == 2 && 1 <= parts[0].len() <= 2 && parts[1].len() == 2 {
        match (spec_parse_u32(parts[0]), spec_parse_u32(parts[1])) {
            (Some(h), Some(m)) => if h < 24 && m < 60 {
                Some(Time { minutes: (h * 60 + m) as u32 })
            } else {
                None
            },
            _ => None,
        }
    } else {
        None
    }
}

/// A date literal `YYYY.MM.DD` (shorter years, months and days accepted),
/// naming a real calendar day.
pub open spec fn spec_parse_date(s: Seq<char>) -> Option<Date> {
    let parts = split_on(s, '.');
    if parts.len() == 3 && 1 <= parts[0].len() <= 4 && 1 <= parts[1].len() <= 2 && 1 <= parts[2].len() <= 2 {
        match (spec_parse_u32(parts[0]), spec_parse_u32(parts[1]), spec_parse_u32(parts[2])) {
            (Some(y), Some(m), Some(d)) => if y <= 9999 && ymd_valid(y as int, m as int, d as int) {
                Some(Date { days: day_number_of(y as int, m as int, d as int) as i64 })
            } else {
                None
            },
            _ => None,
        }
    } else {
        None
    }
}

/// A scalar that a rule part can constrain: ordered, copied freely,
/// abstracted to a mathematical integer for specifications, readable from a
/// literal, and with a neutral placeholder value.
pub trait PartScalar: Sized + Copy {
    spec fn iv(self) -> int;

    spec fn spec_parse(s: Seq<char>) -> Option<Self>;

    spec fn spec_placeholder() -> Self;

    /// Reads a literal of this scalar kind.
    fn parse_scalar(s: &Vec<char>) -> (r: Option<Self>)
        ensures
            r == Self::spec_parse(s@),
    ;

    /// The neutral placeholder (zero, midnight, the epoch).
    fn placeholder() -> (r: Self)
        ensures
            r == Self::spec_placeholder(),
    ;

    fn sc_eq(self, o: Self) -> (r: bool)
        ensures
            r == (self.iv() == o.iv()),
    ;

    fn sc_le(self, o: Self) -> (r: bool)
        ensures
            r == (self.iv() <= o.iv()),
    ;

    fn sc_lt(self, o: Self) -> (r: bool)
        ensures
            r == (self.iv() < o.iv()),
    ;
}

impl PartScalar for u32 {
    open spec fn iv(self) -> int {
        self as int
    }

    open spec fn spec_parse(s: Seq<char>) -> Option<u32> {
        spec_parse_u32(s)
    }

    open spec fn spec_placeholder() -> u32 {
        0
    }

    fn parse_scalar(s: &Vec<char>) -> Option<u32> {
        crate::text::parse_u32(s)
    }

    fn placeholder() -> u32 {
        0
    }

    fn sc_eq(self, o: Self) -> bool {
        self == o
    }

    fn sc_le(self, o: Self) -> bool {
        self <= o
    }

    fn sc_lt(self, o: Self) -> bool {
        self < o
    }
}

impl PartScalar for Time {
    open spec fn iv(self) -> int {
        self.minutes as int
    }

    open spec fn spec_parse(s: Seq<char>) -> Option<Time> {
        spec_parse_time(s)
    }

    open spec fn spec_placeholder() -> Time {
        Time { minutes: 0 }
    }

    fn parse_scalar(s: &Vec<char>) -> (r: Option<Time>) {
        let parts = crate::text::split_chars(s, ':');
        if parts.len() != 2 {
            return None;
        }
        if !(1 <= parts[0].len() && parts[0].len() <= 2 && parts[1].len() == 2) {
            return None;
        }
        let h = crate::text::parse_u32(&parts[0]);
        let m = crate::text::parse_u32(&parts[1]);
        match (h, m) {
            (Some(h), Some(m)) => {
                if h < 24 && m < 60 {
                    Some(Time { minutes: h * 60 + m })
                } else {
                    None
                }
            },
            _ => None,
        }
    }

    fn placeholder() -> Time {
        Time { minutes: 0 }
    }

    fn sc_eq(self, o: Self) -> bool {
        self.minutes == o.minutes
    }

    fn sc_le(self, o: Self) -> bool {
        self.minutes <= o.minutes
    }

    fn sc_lt(self, o: Self) -> bool {
        self.minutes < o.minutes
    }
}

impl PartScalar for Date {
    open spec fn iv(self) -> int {
        self.days as int
    }

    open spec fn spec_parse(s: Seq<char>) -> Option<Date> {
        spec_parse_date(s)
    }

    open spec fn spec_placeholder() -> Date {
        Date { days: 0 }
    }

    fn parse_scalar(s: &Vec<char>) -> (r: Option<Date>) {
        let parts = crate::text::split_chars(s, '.');
        if parts.len() != 3 {
            return None;
        }
        if !(1 <= parts[0].len() && parts[0].len() <= 4 && 1 <= parts[1].len() && parts[1].len()
            <= 2 && 1 <= parts[2].len() && parts[2].len() <= 2) {
            return None;
        }
        let y = crate::text::parse_u32(&parts[0]);
        let m = crate::text::parse_u32(&parts[1]);
        let d = crate::text::parse_u32(&parts[2]);
        match (y, m, d) {
            (Some(y), Some(m), Some(d)) => {
                if y <= 9999 {
                    let r = Date::from_ymd(y as i32, m, d);
                    proof {
                        if r is Some {
                            assert(r->0.days as int == day_number_of(y as int, m as int, d as int));
                            assert(r->0.days == day_number_of(y as int, m as int, d as int) as i64);
                        }
                    }
                    r
                } else {
                    None
                }
            },
            _ => None,
        }
    }

    fn placeholder() -> Date {
        Date { days: 0 }
    }

    fn sc_eq(self, o: Self) -> bool {
        self.days == o.days
    }

    fn sc_le(self, o: Self) -> bool {
        self.days <= o.days
    }

    fn sc_lt(self, o: Self) -> bool {
        self.days < o.days
    }
}

} // verus!
