//! The calendar-date value type.
//!
//! A [`Date`] holds a validated (year, month, day) triple; its view is the
//! ghost triple [`Ymd`]. Besides field access it offers the day-granular
//! primitives that period navigation needs: the weekday, and moving a
//! bounded number of days forward or backward.

use vstd::prelude::*;
use crate::calendar::{
    days_before_month, days_in_month, day_index, is_leap, lemma_day_index_bounds,
    lemma_day_index_from_min, lemma_days_before_year_succ, lemma_days_in_year, max_day_index,
    min_day_index, valid_date, weekday_of, Ymd, MAX_YEAR, MIN_YEAR,
};
use vstd::arithmetic::div_mod::{lemma_div_is_ordered_by_denominator, lemma_mod_multiples_vanish};

verus! {

/// A day of the proleptic Gregorian calendar, with the year restricted to
/// `MIN_YEAR ..= MAX_YEAR`. Values are only ever constructed valid.
#[derive(Clone, Copy, PartialEq, Eq, Structural, Debug)]
pub struct Date {
    year: i32,
    month: u8,
    day: u8,
}

impl View for Date {
    type V = Ymd;

    closed spec fn view(&self) -> Ymd {
        Ymd { year: self.year as int, month: self.month as int, day: self.day as int }
    }
}

/// The Gregorian leap-year test, computed by the arithmetic rule. The year
/// is shifted by 10000 — a multiple of 400, which leaves leapness
/// unchanged — so that the machine remainders act on a non-negative value.
pub fn leap_year(year: i32) -> (r: bool)
    requires
        MIN_YEAR <= year <= MAX_YEAR,
    ensures
        r == is_leap(year as int),
{
    let n: u32 = (year + 10000) as u32;
    proof {
        assert(n as int == year + 10000int);
        lemma_mod_multiples_vanish(2500, year as int, 4);
        lemma_mod_multiples_vanish(100, year as int, 100);
        lemma_mod_multiples_vanish(25, year as int, 400);
    }
    (n % 4 == 0 && n % 100 != 0) || n % 400 == 0
}

/// The number of days in the given month of the given year.
pub fn month_length(year: i32, month: u8) -> (r: u8)
    requires
        MIN_YEAR <= year <= MAX_YEAR,
        1 <= month <= 12,
    ensures
        r as int == days_in_month(year as int, month as int),
{
    if month == 2 {
        if leap_year(year) {
            29
        } else {
            28
        }
    } else if month == 4 || month == 6 || month == 9 || month == 11 {
        30
    } else {
        31
    }
}

impl Date {
    /// Construct a date from its fields, or `None` when the triple is not
    /// a day of the supported calendar range.
    pub fn from_ymd(year: i32, month: u8, day: u8) -> (r: Option<Date>)
        ensures
            r is Some <==> valid_date(Ymd { year: year as int, month: month as int, day: day as int }),
            r matches Some(d) ==> d@ == (Ymd { year: year as int, month: month as int, day: day as int }),
    {
        if year < MIN_YEAR || year > MAX_YEAR || month < 1 || month > 12 || day < 1 {
            return None;
        }
        if day > month_length(year, month) {
            return None;
        }
        Some(Date { year, month, day })
    }

    /// The year field.
    pub fn year(&self) -> (r: i32)
        ensures
            r as int == self@.year,
    {
        self.year
    }

    /// The month field, 1 to 12.
    pub fn month(&self) -> (r: u8)
        ensures
            r as int == self@.month,
    {
        self.month
    }

    /// The day-of-month field, 1 to 31.
    pub fn day(&self) -> (r: u8)
        ensures
            r as int == self@.day,
    {
        self.day
    }

    /// The day of the week, 0 = Monday .. 6 = Sunday. Computed from the
    /// day count since the first representable day, which falls on a
    /// Monday: the 10000-year shift is 25 400-year cycles, and the
    /// 146097 days of a cycle are a whole number of weeks.
    pub fn weekday(&self) -> (r: u8)
        requires
            valid_date(self@),
        ensures
            r as int == weekday_of(self@),
            r <= 6,
    {
        proof {
            lemma_day_index_from_min(self@);
            lemma_div_is_ordered_by_denominator(self@.year + 9999, 4, 100);
        }
        let n: u32 = (self.year + 9999) as u32;
        let leaps: u32 = n / 4 - n / 100 + n / 400;
        let before: u32 = days_before_month_of(self.year, self.month);
        let days: u32 = 365 * n + leaps + before + (self.day as u32) - 1;
        proof {
            assert(days as int == day_index(self@) - min_day_index());
            assert(day_index(self@) == 7 * (-521775) + days as int);
            lemma_mod_multiples_vanish(-521775, days as int, 7);
        }
        (days % 7) as u8
    }

    /// The day after, or `None` past the last representable day.
    fn succ_day(&self) -> (r: Option<Date>)
        requires
            valid_date(self@),
        ensures
            r is Some <==> day_index(self@) < max_day_index(),
            r matches Some(d) ==> valid_date(d@) && day_index(d@) == day_index(self@) + 1,
    {
        let ml = month_length(self.year, self.month);
        let r = if self.day < ml {
            Some(Date { year: self.year, month: self.month, day: self.day + 1 })
        } else if self.month < 12 {
            Some(Date { year: self.year, month: self.month + 1, day: 1 })
        } else if self.year < MAX_YEAR {
            Some(Date { year: self.year + 1, month: 1, day: 1 })
        } else {
            None
        };
        proof {
            if self.day >= ml && self.month >= 12 {
                lemma_days_before_year_succ(self@.year);
                lemma_days_in_year(self@.year);
                assert(days_before_month(self@.year, 13) == days_before_month(self@.year, 12)
                    + days_in_month(self@.year, 12));
                assert(days_before_month(self@.year + 1, 1) == 0);
            }
            match r {
                Some(d) => {
                    lemma_day_index_bounds(d@);
                }
                None => {
                    assert(self@ == (Ymd { year: MAX_YEAR as int, month: 12, day: 31 }));
                }
            }
        }
        r
    }

    /// The day before, or `None` before the first representable day.
    fn pred_day(&self) -> (r: Option<Date>)
        requires
            valid_date(self@),
        ensures
            r is Some <==> day_index(self@) > min_day_index(),
            r matches Some(d) ==> valid_date(d@) && day_index(d@) == day_index(self@) - 1,
    {
        let r = if self.day > 1 {
            Some(Date { year: self.year, month: self.month, day: self.day - 1 })
        } else if self.month > 1 {
            let pm = self.month - 1;
            Some(Date { year: self.year, month: pm, day: month_length(self.year, pm) })
        } else if self.year > MIN_YEAR {
            Some(Date { year: self.year - 1, month: 12, day: 31 })
        } else {
            None
        };
        proof {
            if self.day <= 1 && self.month <= 1 {
                lemma_days_before_year_succ(self@.year - 1);
                lemma_days_in_year(self@.year - 1);
                assert(days_before_month(self@.year - 1, 13) == days_before_month(
                    self@.year - 1,
                    12,
                ) + days_in_month(self@.year - 1, 12));
                assert(days_before_month(self@.year, 1) == 0);
            }
            match r {
                Some(d) => {
                    lemma_day_index_bounds(d@);
                }
                None => {
                    assert(self@ == (Ymd { year: MIN_YEAR as int, month: 1, day: 1 }));
                }
            }
        }
        r
    }

    /// The date `n` days later, or `None` when that leaves the
    /// representable range.
    pub fn add_days(&self, n: u8) -> (r: Option<Date>)
        requires
            valid_date(self@),
        ensures
            r is Some <==> day_index(self@) + n <= max_day_index(),
            r matches Some(d) ==> valid_date(d@) && day_index(d@) == day_index(self@) + n,
    {
        let mut cur: Date = *self;
        let mut i: u8 = 0;
        while i < n
            invariant
                i <= n,
                valid_date(cur@),
                day_index(cur@) == day_index(self@) + i,
            decreases n - i,
        {
            match cur.succ_day() {
                Some(d) => {
                    cur = d;
                },
                None => {
                    proof {
                        lemma_day_index_bounds(cur@);
                    }
                    return None;
                },
            }
            i = i + 1;
        }
        proof {
            lemma_day_index_bounds(cur@);
        }
        Some(cur)
    }

    /// The date `n` days earlier, or `None` when that leaves the
    /// representable range.
    pub fn sub_days(&self, n: u8) -> (r: Option<Date>)
        requires
            valid_date(self@),
        ensures
            r is Some <==> day_index(self@) - n >= min_day_index(),
            r matches Some(d) ==> valid_date(d@) && day_index(d@) == day_index(self@) - n,
    {
        let mut cur: Date = *self;
        let mut i: u8 = 0;
        while i < n
            invariant
                i <= n,
                valid_date(cur@),
                day_index(cur@) == day_index(self@) - i,
            decreases n - i,
        {
            match cur.pred_day() {
                Some(d) => {
                    cur = d;
                },
                None => {
                    proof {
                        lemma_day_index_bounds(cur@);
                    }
                    return None;
                },
            }
            i = i + 1;
        }
        proof {
            lemma_day_index_bounds(cur@);
        }
        Some(cur)
    }
}

/// Days of the year before the first day of the given month, computed by
/// summing the month lengths.
fn days_before_month_of(year: i32, month: u8) -> (r: u32)
    requires
        MIN_YEAR <= year <= MAX_YEAR,
        1 <= month <= 12,
    ensures
        r as int == days_before_month(year as int, month as int),
        r <= 341,
{
    let mut acc: u32 = 0;
    let mut m: u8 = 1;
    while m < month
        invariant
            1 <= m <= month,
            month <= 12,
            MIN_YEAR <= year <= MAX_YEAR,
            acc as int == days_before_month(year as int, m as int),
            acc as int <= 31 * (m as int - 1),
        decreases month - m,
    {
        acc = acc + month_length(year, m) as u32;
        m = m + 1;
    }
    acc
}

} // verus!
