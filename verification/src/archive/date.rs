//! Stored modification times as points in time.

use crate::archive::Date;
use vstd::prelude::*;

verus! {

/// The year in which the epoch lies.
pub const EPOCH_YEAR: u16 = 1970;

/// Whether a year has a 29th of February.
pub open spec fn is_leap_year(year: int) -> bool {
    year % 4 == 0 && (year % 100 != 0 || year % 400 == 0)
}

/// The number of days of a year.
pub open spec fn days_in_year(year: int) -> int {
    if is_leap_year(year) {
        366
    } else {
        365
    }
}

/// The number of days of a month of a year; a month that is none has no days.
pub open spec fn days_in_month(year: int, month: int) -> int {
    if month == 2 {
        if is_leap_year(year) {
            29
        } else {
            28
        }
    } else if month == 4 || month == 6 || month == 9 || month == 11 {
        30
    } else if 1 <= month <= 12 {
        31
    } else {
        0
    }
}

/// The number of days from the first day of the epoch's year to the first
/// day of a later year.
pub open spec fn days_before_year(year: int) -> int
    decreases year,
{
    if year <= EPOCH_YEAR {
        0
    } else {
        days_before_year(year - 1) + days_in_year(year - 1)
    }
}

/// The number of days of a year that lie before the first day of a month.
pub open spec fn days_before_month(year: int, month: int) -> int
    decreases month,
{
    if month <= 1 {
        0
    } else {
        days_before_month(year, month - 1) + days_in_month(year, month - 1)
    }
}

impl Date {
    /// Whether the date is a minute of a day of the calendar, not before
    /// the epoch.
    pub open spec fn is_valid(self) -> bool {
        &&& self.year >= EPOCH_YEAR
        &&& 1 <= self.month <= 12
        &&& 1 <= self.day <= days_in_month(self.year as int, self.month as int)
        &&& self.hour < 24
        &&& self.minute < 60
    }

    /// The number of seconds from the epoch to the start of the minute.
    pub open spec fn seconds(self) -> int {
        (((days_before_year(self.year as int) + days_before_month(
            self.year as int,
            self.month as int,
        ) + (self.day - 1)) * 24 + self.hour) * 60 + self.minute) * 60
    }

    /// The number of seconds from the epoch to the start of the minute, for
    /// a date of the calendar that is not before the epoch.
    pub fn epoch_seconds(&self) -> (seconds: Option<u64>)
        ensures
            seconds == if self.is_valid() {
                Some(self.seconds() as u64)
            } else {
                None::<u64>
            },
            self.is_valid() ==> 0 <= self.seconds() < 0x1_0000_0000_0000,
    {
        if self.year < EPOCH_YEAR || self.month < 1 || self.month > 12 || self.hour >= 24
            || self.minute >= 60 {
            return None;
        }
        if self.day < 1 || self.day as u64 > month_length(self.year, self.month) {
            return None;
        }
        let mut days: u64 = 0;
        let mut year: u16 = EPOCH_YEAR;
        while year < self.year
            invariant
                EPOCH_YEAR <= year <= self.year,
                days == days_before_year(year as int),
                days <= 366 * (year - EPOCH_YEAR),
            decreases self.year - year,
        {
            days = days + if leap_year(year) {
                366
            } else {
                365
            };
            year = year + 1;
        }
        let mut month: u8 = 1;
        let mut in_year: u64 = 0;
        while month < self.month
            invariant
                1 <= month <= self.month <= 12,
                in_year == days_before_month(self.year as int, month as int),
                in_year <= 31 * (month - 1),
            decreases self.month - month,
        {
            in_year = in_year + month_length(self.year, month);
            month = month + 1;
        }
        let total_days = days + in_year + (self.day as u64 - 1);
        Some(((total_days * 24 + self.hour as u64) * 60 + self.minute as u64) * 60)
    }
}

/// Whether a year has a 29th of February.
pub fn leap_year(year: u16) -> (leap: bool)
    ensures
        leap == is_leap_year(year as int),
{
    year % 4 == 0 && (year % 100 != 0 || year % 400 == 0)
}

/// The number of days of a month of a year.
pub fn month_length(year: u16, month: u8) -> (days: u64)
    ensures
        days == days_in_month(year as int, month as int),
        days <= 31,
{
    if month == 2 {
        if leap_year(year) {
            29
        } else {
            28
        }
    } else if month == 4 || month == 6 || month == 9 || month == 11 {
        30
    } else if 1 <= month && month <= 12 {
        31
    } else {
        0
    }
}

} // verus!
