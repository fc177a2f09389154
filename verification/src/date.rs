//! Calendar dates of the proleptic Gregorian calendar, modelled as plain
//! year/month/day values with a verified day-number formula.
//!
//! Dates are ordered and subtracted through [`Date::day_number`], the count of
//! days since 0001-01-01; weekdays are derived from the same count.

use vstd::prelude::*;

verus! {

/// Day of the week.
#[derive(Clone, Copy, Debug, PartialEq, Eq, Structural)]
pub enum Weekday {
    Mon,
    Tue,
    Wed,
    Thu,
    Fri,
    Sat,
    Sun,
}

impl Weekday {
    /// Days since Monday, 0 to 6.
    pub open spec fn index_spec(self) -> int {
        match self {
            Weekday::Mon => 0,
            Weekday::Tue => 1,
            Weekday::Wed => 2,
            Weekday::Thu => 3,
            Weekday::Fri => 4,
            Weekday::Sat => 5,
            Weekday::Sun => 6,
        }
    }
}

/// A calendar date, valid between years 1 and 9999.
#[derive(Clone, Copy, Debug, PartialEq, Eq, Structural)]
pub struct Date {
    pub year: u32,
    pub month: u32,
    pub day: u32,
}

/// Gregorian leap-year rule.
pub open spec fn is_leap_year(y: int) -> bool {
    y % 4 == 0 && (y % 100 != 0 || y % 400 == 0)
}

/// Length of a month.
pub open spec fn days_in_month(y: int, m: int) -> int {
    if m == 2 {
        if is_leap_year(y) {
            29
        } else {
            28
        }
    } else if m == 4 || m == 6 || m == 9 || m == 11 {
        30
    } else {
        31
    }
}

/// Days of year `y` that precede the first day of month `m`.
pub open spec fn days_before_month(y: int, m: int) -> int {
    let base: int = if m == 1 {
        0
    } else if m == 2 {
        31
    } else if m == 3 {
        59
    } else if m == 4 {
        90
    } else if m == 5 {
        120
    } else if m == 6 {
        151
    } else if m == 7 {
        181
    } else if m == 8 {
        212
    } else if m == 9 {
        243
    } else if m == 10 {
        273
    } else if m == 11 {
        304
    } else {
        334
    };
    if m > 2 && is_leap_year(y) {
        base + 1
    } else {
        base
    }
}

/// Leap years strictly before year `y`.
pub open spec fn leaps_before(y: int) -> int {
    (y - 1) / 4 - (y - 1) / 100 + (y - 1) / 400
}

/// Days from 0001-01-01 to the date `y`-`m`-`d`.
pub open spec fn day_number_of(y: int, m: int, d: int) -> int {
    365 * (y - 1) + leaps_before(y) + days_before_month(y, m) + (d - 1)
}

impl Date {
    /// The fields form an existing calendar date within the supported years.
    pub open spec fn valid(self) -> bool {
        &&& 1 <= self.year <= 9999
    &&& 1 <= self.month <= 12
    &&& 1 <= self.day <= days_in_month(self.year as int, self.month as int)
    }

    /// Days from 0001-01-01 to this date.
    pub open spec fn dn(self) -> int {
        day_number_of(self.year as int, self.month as int, self.day as int)
    }

    /// Construct a date, `None` when the fields do not name a calendar day.
    pub fn from_ymd(year: u32, month: u32, day: u32) -> (r: Option<Date>)
        ensures
            r is Some <==> (Date { year, month, day }).valid(),
            r is Some ==> r->0 == (Date { year, month, day }),
    {
        let d = Date { year, month, day };
        if 1 <= year && year <= 9999 && 1 <= month && month <= 12 && 1 <= day && day
            <= d.days_in_month_exec() {
            Some(d)
        } else {
            None
        }
    }

    /// Length of this date's month.
    fn days_in_month_exec(&self) -> (r: u32)
        ensures
            r == days_in_month(self.year as int, self.month as int),
    {
        let leap = self.year % 4 == 0 && (self.year % 100 != 0 || self.year % 400 == 0);
        if self.month == 2 {
            if leap {
                29
            } else {
                28
            }
        } else if self.month == 4 || self.month == 6 || self.month == 9 || self.month == 11 {
            30
        } else {
            31
        }
    }

    /// Days from 0001-01-01 to this date.
    pub fn day_number(&self) -> (dn: i64)
        requires
            self.valid(),
        ensures
            dn == self.dn(),
            0 <= dn < 4_000_000,
    {
        let y: u64 = self.year as u64;
        let q4: u64 = (y - 1) / 4;
        let q100: u64 = (y - 1) / 100;
        let q400: u64 = (y - 1) / 400;
        assert(q100 <= q4 && q4 <= y - 1) by {
            vstd::arithmetic::div_mod::lemma_div_is_ordered_by_denominator((y - 1) as int, 4, 100);
            vstd::arithmetic::div_mod::lemma_div_is_ordered_by_denominator((y - 1) as int, 1, 4);
        }
        let leap = self.year % 4 == 0 && (self.year % 100 != 0 || self.year % 400 == 0);
        let base: u64 = if self.month == 1 {
            0
        } else if self.month == 2 {
            31
        } else if self.month == 3 {
            59
        } else if self.month == 4 {
            90
        } else if self.month == 5 {
            120
        } else if self.month == 6 {
            151
        } else if self.month == 7 {
            181
        } else if self.month == 8 {
            212
        } else if self.month == 9 {
            243
        } else if self.month == 10 {
            273
        } else if self.month == 11 {
            304
        } else {
            334
        };
        let dbm: u64 = if self.month > 2 && leap {
            base + 1
        } else {
            base
        };
        let n: u64 = 365 * (y - 1) + q4 + q400 - q100 + dbm + (self.day as u64 - 1);
        n as i64
    }

    /// Day of the week of this date.  0001-01-01 was a Monday.
    pub fn weekday(&self) -> (w: Weekday)
        requires
            self.valid(),
        ensures
            w.index_spec() == self.dn() % 7,
    {
        let dn = self.day_number();
        let r = (dn as u64) % 7;
        if r == 0 {
            Weekday::Mon
        } else if r == 1 {
            Weekday::Tue
        } else if r == 2 {
            Weekday::Wed
        } else if r == 3 {
            Weekday::Thu
        } else if r == 4 {
            Weekday::Fri
        } else if r == 5 {
            Weekday::Sat
        } else {
            Weekday::Sun
        }
    }

    /// The following calendar day; `None` past the last supported date.
    pub fn succ(&self) -> (r: Option<Date>)
        requires
            self.valid(),
        ensures
            r is Some <==> !(self.year == 9999 && self.month == 12 && self.day == 31),
            r is Some ==> r->0.valid() && r->0.dn() == self.dn() + 1,
    {
        let dim = self.days_in_month_exec();
        if self.day < dim {
            let n = Date { year: self.year, month: self.month, day: self.day + 1 };
            Some(n)
        } else if self.month < 12 {
            let n = Date { year: self.year, month: self.month + 1, day: 1 };
            proof {
                lemma_month_boundary(self.year as int, self.month as int);
            }
            Some(n)
        } else if self.year < 9999 {
            let n = Date { year: self.year + 1, month: 1, day: 1 };
            proof {
                lemma_year_boundary(self.year as int);
            }
            Some(n)
        } else {
            None
        }
    }

    /// The date `n` days after this one; `None` when it would pass the last
    /// supported date.
    pub fn add_days(&self, n: u32) -> (r: Option<Date>)
        requires
            self.valid(),
        ensures
            r is Some ==> r->0.valid() && r->0.dn() == self.dn() + n,
            r is None ==> self.dn() + n > day_number_of(9999, 12, 31),
    {
        let mut cur = *self;
        let mut left: u32 = n;
        while left > 0
            invariant
                cur.valid(),
                cur.dn() == self.dn() + n - left,
            decreases left,
        {
            match cur.succ() {
                Some(next) => {
                    cur = next;
                },
                None => {
                    proof {
                        assert(cur.dn() == day_number_of(9999, 12, 31));
                    }
                    return None;
                },
            }
            left = left - 1;
        }
        Some(cur)
    }
}

/// Crossing from the last day of month `m < 12` to the first of month `m + 1`
/// advances the day number by one.
proof fn lemma_month_boundary(y: int, m: int)
    requires
        1 <= m < 12,
    ensures
        days_before_month(y, m + 1) == days_before_month(y, m) + days_in_month(y, m),
{
}

/// Crossing from December 31 to January 1 advances the day number by one.
proof fn lemma_year_boundary(y: int)
    requires
        1 <= y,
    ensures
        365 * y + leaps_before(y + 1) == 365 * (y - 1) + leaps_before(y) + days_before_month(y, 12)
            + days_in_month(y, 12),
{
    assert(y / 4 == if y % 4 == 0 {
        (y - 1) / 4 + 1
    } else {
        (y - 1) / 4
    }) by {
        vstd::arithmetic::div_mod::lemma_fundamental_div_mod(y, 4);
        vstd::arithmetic::div_mod::lemma_fundamental_div_mod(y - 1, 4);
    }
    assert(y / 100 == if y % 100 == 0 {
        (y - 1) / 100 + 1
    } else {
        (y - 1) / 100
    }) by {
        vstd::arithmetic::div_mod::lemma_fundamental_div_mod(y, 100);
        vstd::arithmetic::div_mod::lemma_fundamental_div_mod(y - 1, 100);
    }
    assert(y / 400 == if y % 400 == 0 {
        (y - 1) / 400 + 1
    } else {
        (y - 1) / 400
    }) by {
        vstd::arithmetic::div_mod::lemma_fundamental_div_mod(y, 400);
        vstd::arithmetic::div_mod::lemma_fundamental_div_mod(y - 1, 400);
    }
}

} // verus!
