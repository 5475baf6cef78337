//! Calendar dates from seconds since the Matter epoch, 2000-01-01 00:00:00
//! UTC.

use vstd::prelude::*;

verus! {

/// Whether `y` is a leap year of the Gregorian calendar.
pub open spec fn is_leap(y: int) -> bool {
    y % 4 == 0 && (y % 100 != 0 || y % 400 == 0)
}

/// The number of days of the year `y`.
pub open spec fn days_in_year(y: int) -> int {
    if is_leap(y) {
        366
    } else {
        365
    }
}

/// The number of days of month `m` (1 to 12) of the year `y`.
pub open spec fn days_in_month(y: int, m: int) -> int {
    if m == 2 {
        if is_leap(y) {
            29
        } else {
            28
        }
    } else if m == 4 || m == 6 || m == 9 || m == 11 {
        30
    } else {
        31
    }
}

/// The number of days from the first day of 2000 to the first day of `y`.
pub open spec fn days_before_year(y: int) -> int
    decreases y - 2000,
{
    if y <= 2000 {
        0
    } else {
        days_before_year(y - 1) + days_in_year(y - 1)
    }
}

/// The number of days from the first day of `y` to the first day of its
/// month `m`.
pub open spec fn days_before_month(y: int, m: int) -> int
    decreases m,
{
    if m <= 1 {
        0
    } else {
        days_before_month(y, m - 1) + days_in_month(y, m - 1)
    }
}

/// A date and a time of day.
#[derive(Debug, PartialEq, Eq, Clone, Copy, Structural)]
pub struct CivilTime {
    pub year: u32,
    pub month: u32,
    pub day: u32,
    pub hour: u32,
    pub minute: u32,
    pub second: u32,
}

impl CivilTime {
    /// The fields name a day of the calendar from 2000 on and a time of
    /// that day.
    pub open spec fn valid(self) -> bool {
        &&& self.year >= 2000
        &&& 1 <= self.month <= 12
        &&& 1 <= self.day <= days_in_month(self.year as int, self.month as int)
        &&& self.hour < 24
        &&& self.minute < 60
        &&& self.second < 60
    }

    /// The seconds from the Matter epoch to this date and time.
    pub open spec fn seconds(self) -> int {
        (days_before_year(self.year as int) + days_before_month(
            self.year as int,
            self.month as int,
        ) + (self.day - 1)) * 86400 + self.hour * 3600 + self.minute * 60 + self.second
    }
}

/// The year that holds day number `days`, counted from the first day of
/// `y`, and the number of that day within its year.
pub open spec fn year_of(days: int, y: int) -> (int, int)
    decreases days,
{
    if days < days_in_year(y) || days <= 0 {
        (y, days)
    } else {
        year_of(days - days_in_year(y), y + 1)
    }
}

/// The month of `y` that holds day number `days`, counted from the first
/// day of month `m`, and the number of that day within its month.
pub open spec fn month_of(days: int, y: int, m: int) -> (int, int)
    decreases days,
{
    if days < days_in_month(y, m) || days <= 0 {
        (m, days)
    } else {
        month_of(days - days_in_month(y, m), y, m + 1)
    }
}

/// The date and time that lie `epoch` seconds after the Matter epoch.
pub open spec fn civil_of(epoch: u32) -> CivilTime {
    let days = epoch as int / 86400;
    let tod = epoch as int % 86400;
    let (y, yd) = year_of(days, 2000);
    let (m, md) = month_of(yd, y, 1);
    CivilTime {
        year: y as u32,
        month: m as u32,
        day: (md + 1) as u32,
        hour: (tod / 3600) as u32,
        minute: ((tod % 3600) / 60) as u32,
        second: (tod % 60) as u32,
    }
}

proof fn lemma_year_of(days: int, y: int)
    requires
        days >= 0,
        y >= 2000,
    ensures
        year_of(days, y).0 >= y,
        year_of(days, y).0 - y <= days / 365,
        0 <= year_of(days, y).1 < days_in_year(year_of(days, y).0),
        days_before_year(year_of(days, y).0) + year_of(days, y).1 == days_before_year(y) + days,
    decreases days,
{
    if days >= days_in_year(y) {
        lemma_year_of(days - days_in_year(y), y + 1);
    }
}

proof fn lemma_month_of(days: int, y: int, m: int)
    requires
        days >= 0,
        1 <= m <= 12,
        days + days_before_month(y, m) < days_in_year(y),
    ensures
        m <= month_of(days, y, m).0 <= 12,
        0 <= month_of(days, y, m).1 < days_in_month(y, month_of(days, y, m).0),
        days_before_month(y, month_of(days, y, m).0) + month_of(days, y, m).1
            == days_before_month(y, m) + days,
    decreases days,
{
    reveal_with_fuel(days_before_month, 14);
    if days >= days_in_month(y, m) {
        assert(m < 12);
        lemma_month_of(days - days_in_month(y, m), y, m + 1);
    }
}

/// The date and time of an epoch is a valid one, and lies that many seconds
/// after the Matter epoch.
pub proof fn lemma_civil_of(epoch: u32)
    ensures
        civil_of(epoch).valid(),
        civil_of(epoch).seconds() == epoch,
        civil_of(epoch).year <= 2136,
{
    let days = epoch as int / 86400;
    let tod = epoch as int % 86400;
    lemma_year_of(days, 2000);
    let (y, yd) = year_of(days, 2000);
    lemma_month_of(yd, y, 1);
}

/// The date and time that lie `epoch` seconds after the Matter epoch.
pub fn civil_from_epoch(epoch: u32) -> (t: CivilTime)
    ensures
        t == civil_of(epoch),
        t.valid(),
        t.seconds() == epoch,
{
    proof {
        lemma_civil_of(epoch);
    }
    let tod: u32 = epoch % 86400;
    let mut days: u32 = epoch / 86400;
    let mut year: u32 = 2000;
    loop
        invariant
            2000 <= year,
            year + days / 365 <= 2000 + (epoch / 86400) / 365,
            year_of(days as int, year as int) == year_of(epoch as int / 86400, 2000),
        ensures
            days < days_in_year(year as int),
        decreases days,
    {
        let leap: bool = year % 4 == 0 && (year % 100 != 0 || year % 400 == 0);
        let len: u32 = if leap {
            366
        } else {
            365
        };
        if days < len {
            break ;
        }
        days = days - len;
        year = year + 1;
    }
    let leap: bool = year % 4 == 0 && (year % 100 != 0 || year % 400 == 0);
    let mut month: u32 = 1;
    let ghost yd = days;
    proof {
        lemma_year_of(epoch as int / 86400, 2000);
        lemma_month_of(yd as int, year as int, 1);
    }
    loop
        invariant
            1 <= month <= 12,
            leap == is_leap(year as int),
            days + days_before_month(year as int, month as int) < days_in_year(year as int),
            month_of(days as int, year as int, month as int) == month_of(
                yd as int,
                year as int,
                1,
            ),
        ensures
            days < days_in_month(year as int, month as int),
        decreases days,
    {
        let len: u32 = if month == 2 {
            if leap {
                29
            } else {
                28
            }
        } else if month == 4 || month == 6 || month == 9 || month == 11 {
            30
        } else {
            31
        };
        if days < len {
            break ;
        }
        proof {
            reveal_with_fuel(days_before_month, 14);
            assert(month < 12);
        }
        days = days - len;
        month = month + 1;
    }
    CivilTime {
        year,
        month,
        day: days + 1,
        hour: tod / 3600,
        minute: (tod % 3600) / 60,
        second: tod % 60,
    }
}

} // verus!
