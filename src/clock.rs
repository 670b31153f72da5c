use vstd::prelude::*;

verus! {

/// A moment of UTC, to the second, in the proleptic Gregorian calendar.
#[derive(Clone, Copy, Debug, PartialEq, Eq, Structural)]
pub struct UtcDateTime {
    pub year: u64,
    pub month: u8,
    pub day: u8,
    pub hour: u8,
    pub minute: u8,
    pub second: u8,
}

pub open spec fn is_leap_year(y: int) -> bool {
    (y % 4 == 0 && y % 100 != 0) || y % 400 == 0
}

pub open spec fn days_in_year(y: int) -> int {
    if is_leap_year(y) { 366 } else { 365 }
}

pub open spec fn days_in_month(y: int, m: int) -> int {
    if m == 2 {
        if is_leap_year(y) { 29 } else { 28 }
    } else if m == 4 || m == 6 || m == 9 || m == 11 {
        30
    } else {
        31
    }
}

/// Days from the first of January 1970 to the first of January of `y`.
pub open spec fn days_before_year(y: int) -> int
    decreases y - 1970,
{
    if y <= 1970 {
        0
    } else {
        days_before_year(y - 1) + days_in_year(y - 1)
    }
}

/// Days from the first of January of `y` to the first of month `m`.
pub open spec fn days_before_month(y: int, m: int) -> int
    decreases m,
{
    if m <= 1 {
        0
    } else {
        days_before_month(y, m - 1) + days_in_month(y, m - 1)
    }
}

impl UtcDateTime {
    /// A real date from 1970 on, and a time of day.
    pub open spec fn wf(&self) -> bool {
        &&& self.year >= 1970
        &&& 1 <= self.month <= 12
        &&& 1 <= self.day <= days_in_month(self.year as int, self.month as int)
        &&& self.hour < 24
        &&& self.minute < 60
        &&& self.second < 60
    }

    /// Seconds since 1970-01-01T00:00:00Z.
    pub open spec fn unix_seconds(&self) -> int {
        (days_before_year(self.year as int) + days_before_month(self.year as int, self.month as int)
            + self.day - 1) * 86400 + self.hour * 3600 + self.minute * 60 + self.second
    }

    /// The moment `secs` seconds after 1970-01-01T00:00:00Z.
    pub fn from_unix_seconds(secs: u64) -> (r: UtcDateTime)
        ensures
            r.wf(),
            r.unix_seconds() == secs,
    {
        let total_days: u64 = secs / 86400;
        let rest: u64 = secs % 86400;
        let mut days: u64 = total_days;
        let mut year: u64 = 1970;
        while days >= year_length(year)
            invariant
                year >= 1970,
                days_before_year(year as int) + days == total_days,
                year - 1970 <= total_days - days,
                total_days <= u64::MAX / 86400,
            decreases days,
        {
            days = days - year_length(year);
            year = year + 1;
        }
        let mut month: u8 = 1;
        proof {
            lemma_months_fill_year(year as int);
        }
        while days >= month_length(year, month)
            invariant
                1 <= month <= 12,
                days + days_before_month(year as int, month as int) < days_in_year(year as int),
                days_before_month(year as int, 12) + days_in_month(year as int, 12) == days_in_year(
                    year as int,
                ),
                days_before_year(year as int) + days_before_month(year as int, month as int) + days
                    == total_days,
            decreases 12 - month,
        {
            days = days - month_length(year, month);
            month = month + 1;
        }
        UtcDateTime {
            year,
            month,
            day: (days + 1) as u8,
            hour: (rest / 3600) as u8,
            minute: ((rest % 3600) / 60) as u8,
            second: (rest % 60) as u8,
        }
    }
}

fn year_length(y: u64) -> (r: u64)
    ensures
        r == days_in_year(y as int),
{
    if (y % 4 == 0 && y % 100 != 0) || y % 400 == 0 {
        366
    } else {
        365
    }
}

fn month_length(y: u64, m: u8) -> (r: u64)
    ensures
        r == days_in_month(y as int, m as int),
{
    if m == 2 {
        if (y % 4 == 0 && y % 100 != 0) || y % 400 == 0 {
            29
        } else {
            28
        }
    } else if m == 4 || m == 6 || m == 9 || m == 11 {
        30
    } else {
        31
    }
}

proof fn lemma_months_fill_year(y: int)
    ensures
        days_before_month(y, 12) + days_in_month(y, 12) == days_in_year(y),
{
    reveal_with_fuel(days_before_month, 13);
}

} // verus!
