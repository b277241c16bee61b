//! A calendar instant held as plain values: a day number (day 1 is the first
//! day of year 1 of the proleptic Gregorian calendar, so the day number modulo
//! 7 is the weekday index with 0 = Sunday) and a second within that day.
//!
//! An instant carries no time zone: the scheduler compares plain local
//! times, and conversion to and from the machine's clock happens outside the
//! library. Around a clock shift the comparison is naive — a skipped or
//! repeated local hour is neither detected nor surfaced as an error.

use vstd::prelude::*;

use crate::calendar;

verus! {

pub const SECS_PER_DAY: u32 = 86400;

pub const SECS_PER_HOUR: u32 = 3600;

pub const SECS_PER_MINUTE: u32 = 60;

/// The largest day number the scheduler works with (around ten million
/// years): it keeps the day arithmetic of the next-occurrence search far away
/// from the edge of `u64`.
pub const MAX_DAY: u64 = 4_000_000_000;

#[derive(Clone, Copy, PartialEq, Eq, Structural, Debug)]
pub struct Instant {
    /// Days since the calendar epoch; `day % 7` is the weekday index.
    pub day: u64,
    /// Seconds past that day's midnight.
    pub sec: u32,
}

impl Instant {
    /// A well-formed instant names a second within its day.
    pub open spec fn wf(self) -> bool {
        self.sec < SECS_PER_DAY
    }

    /// An instant in the range whose arithmetic the scheduler has proved
    /// overflow-free.
    pub open spec fn in_range(self) -> bool {
        self.day <= MAX_DAY
    }

    /// The instant as a count of seconds since the epoch: the mathematical
    /// value that the ordering compares.
    pub open spec fn as_sec(self) -> int {
        self.day * (SECS_PER_DAY as int) + self.sec
    }

    /// The weekday index of the instant's day (0 = Sunday, ..., 6 = Saturday).
    pub open spec fn weekday(self) -> int {
        (self.day as int) % 7
    }

    /// Builds an instant from a day number and a second of that day,
    /// rejecting values outside the scheduler's range.
    pub fn new(day: u64, sec: u32) -> (r: Option<Instant>)
        ensures
            r is Some <==> (sec < SECS_PER_DAY && day <= MAX_DAY),
            r matches Some(i) ==> i == (Instant { day, sec }) && i.wf() && i.in_range(),
    {
        if sec < SECS_PER_DAY && day <= MAX_DAY {
            Some(Instant { day, sec })
        } else {
            None
        }
    }

    /// Builds the instant of a calendar date and a time of day. Returns
    /// `None` when the date is not a real date of years 1 through 9999 or the
    /// time of day is out of range.
    pub fn from_ymd_hm(year: i32, month: u32, day: u32, hour: u32, minute: u32) -> (r: Option<
        Instant,
    >)
        ensures
            r is Some <==> (1 <= year <= 9999 && calendar::valid_date(
                year as int,
                month as int,
                day as int,
            ) && hour < 24 && minute < 60),
            r matches Some(i) ==> {
                &&& i.day == calendar::day_number_of(year as int, month as int, day as int)
                &&& i.sec == hour * SECS_PER_HOUR + minute * SECS_PER_MINUTE
                &&& i.wf()
                &&& i.in_range()
                &&& calendar::day_number_of(1, 1, 1) == 1
                &&& ({
                    let (ny, nm, nd) = calendar::next_date(year as int, month as int, day as int);
                    calendar::day_number_of(ny, nm, nd) == i.day + 1
                })
            },
    {
        if year < 1 || year > 9999 || hour >= 24 || minute >= 60 {
            return None;
        }
        match calendar::day_number_from_ymd(year, month, day) {
            Some(n) => Some(Instant { day: n, sec: hour * SECS_PER_HOUR + minute * SECS_PER_MINUTE }),
            None => None,
        }
    }

    /// Whether `self` is at or before `other`.
    pub fn le(&self, other: &Instant) -> (r: bool)
        requires
            self.wf(),
            other.wf(),
        ensures
            r == (self.as_sec() <= other.as_sec()),
    {
        self.day < other.day || (self.day == other.day && self.sec <= other.sec)
    }

    /// Whether `self` is strictly before `other`.
    pub fn lt(&self, other: &Instant) -> (r: bool)
        requires
            self.wf(),
            other.wf(),
        ensures
            r == (self.as_sec() < other.as_sec()),
    {
        self.day < other.day || (self.day == other.day && self.sec < other.sec)
    }
}

/// Two well-formed instants that stand for the same second are the same
/// day-and-second pair.
pub proof fn lemma_as_sec_injective(a: Instant, b: Instant)
    requires
        a.wf(),
        b.wf(),
        a.as_sec() == b.as_sec(),
    ensures
        a == b,
{
}

} // verus!
