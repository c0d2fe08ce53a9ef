//! The mathematical model of the proleptic Gregorian calendar.
//!
//! Everything here is specification and proof: a calendar day is the ghost
//! triple [`Ymd`], and its place on the time line is [`day_index`], the
//! number of days since January 1 of year 1 (day 0, a Monday). The
//! executable code in the rest of the crate is verified against these
//! definitions.

use vstd::prelude::*;
use vstd::arithmetic::div_mod::{
    lemma_fundamental_div_mod, lemma_fundamental_div_mod_converse_div,
    lemma_fundamental_div_mod_converse_mod, lemma_hoist_over_denominator,
    lemma_mod_division_less_than_divisor, lemma_mod_multiples_vanish, lemma_small_mod,
};
use vstd::arithmetic::mul::{
    lemma_mul_is_associative, lemma_mul_is_commutative, lemma_mul_is_distributive_add,
    lemma_mul_is_distributive_sub,
};

verus! {

/// Smallest year a [`crate::date::Date`] can hold.
pub const MIN_YEAR: i32 = -9999;

/// Largest year a [`crate::date::Date`] can hold.
pub const MAX_YEAR: i32 = 9999;

/// A calendar day as a plain (year, month, day) triple of mathematical
/// integers: the view of [`crate::date::Date`].
pub struct Ymd {
    pub year: int,
    pub month: int,
    pub day: int,
}

/// The Gregorian leap-year rule: every fourth year, except century years,
/// which are leap only every fourth century.
pub open spec fn is_leap(y: int) -> bool {
    (y % 4 == 0 && y % 100 != 0) || y % 400 == 0
}

/// Length of month `m` of year `y`: the fixed table
/// 31, 28, 31, 30, 31, 30, 31, 31, 30, 31, 30, 31, with February lengthened
/// to 29 in a leap year.
pub open spec fn days_in_month(y: int, m: int) -> int {
    if m == 1 {
        31
    } else if m == 2 {
        if is_leap(y) {
            29
        } else {
            28
        }
    } else if m == 3 {
        31
    } else if m == 4 {
        30
    } else if m == 5 {
        31
    } else if m == 6 {
        30
    } else if m == 7 {
        31
    } else if m == 8 {
        31
    } else if m == 9 {
        30
    } else if m == 10 {
        31
    } else if m == 11 {
        30
    } else if m == 12 {
        31
    } else {
        0
    }
}

/// A well-formed day of the supported calendar range.
pub open spec fn valid_date(v: Ymd) -> bool {
    &&& MIN_YEAR as int <= v.year <= MAX_YEAR as int
    &&& 1 <= v.month <= 12
    &&& 1 <= v.day <= days_in_month(v.year, v.month)
}

/// Days of year `y` that lie before the first day of month `m`.
pub open spec fn days_before_month(y: int, m: int) -> int
    decreases m,
{
    if m <= 1 {
        0
    } else {
        days_before_month(y, m - 1) + days_in_month(y, m - 1)
    }
}

/// Days that lie before January 1 of year `y`, counted from January 1 of
/// year 1. Integer division in specifications rounds toward negative
/// infinity for a positive divisor, so the formula also counts the leap
/// years of the years before year 1 correctly.
pub open spec fn days_before_year(y: int) -> int {
    365 * (y - 1) + (y - 1) / 4 - (y - 1) / 100 + (y - 1) / 400
}

/// The position of a day on the time line: day 0 is January 1 of year 1.
pub open spec fn day_index(v: Ymd) -> int {
    days_before_year(v.year) + days_before_month(v.year, v.month) + v.day - 1
}

/// Day of the week, 0 = Monday .. 6 = Sunday. January 1 of year 1 of the
/// proleptic Gregorian calendar is a Monday, and the remainder is
/// non-negative, so this is the ISO-8601 weekday offset.
pub open spec fn weekday_of(v: Ymd) -> int {
    day_index(v) % 7
}

/// The smallest day index a `Date` can hold: January 1 of `MIN_YEAR`.
pub open spec fn min_day_index() -> int {
    day_index(Ymd { year: MIN_YEAR as int, month: 1, day: 1 })
}

/// The largest day index a `Date` can hold: December 31 of `MAX_YEAR`.
pub open spec fn max_day_index() -> int {
    day_index(Ymd { year: MAX_YEAR as int, month: 12, day: 31 })
}

// ---------------------------------------------------------------------------
// The anchor points of the periods containing a day.
// ---------------------------------------------------------------------------

/// January 1 of the same year.
pub open spec fn year_start(v: Ymd) -> Ymd {
    Ymd { year: v.year, month: 1, day: 1 }
}

/// December 31 of the same year.
pub open spec fn year_end(v: Ymd) -> Ymd {
    Ymd { year: v.year, month: 12, day: 31 }
}

/// The first day of the same month.
pub open spec fn month_start(v: Ymd) -> Ymd {
    Ymd { year: v.year, month: v.month, day: 1 }
}

/// The last day of the same month.
pub open spec fn month_end(v: Ymd) -> Ymd {
    Ymd { year: v.year, month: v.month, day: days_in_month(v.year, v.month) }
}

/// January 1 of the year before.
pub open spec fn pred_year_start(v: Ymd) -> Ymd {
    Ymd { year: v.year - 1, month: 1, day: 1 }
}

/// December 31 of the year before.
pub open spec fn pred_year_end(v: Ymd) -> Ymd {
    Ymd { year: v.year - 1, month: 12, day: 31 }
}

/// January 1 of the year after.
pub open spec fn succ_year_start(v: Ymd) -> Ymd {
    Ymd { year: v.year + 1, month: 1, day: 1 }
}

/// December 31 of the year after.
pub open spec fn succ_year_end(v: Ymd) -> Ymd {
    Ymd { year: v.year + 1, month: 12, day: 31 }
}

/// The first day of the month before: the month field rolls from 1 to 12
/// and then the year is decremented.
pub open spec fn pred_month_start(v: Ymd) -> Ymd {
    if v.month == 1 {
        Ymd { year: v.year - 1, month: 12, day: 1 }
    } else {
        Ymd { year: v.year, month: v.month - 1, day: 1 }
    }
}

/// The last day of the month before. The month length is that of the
/// target month, so it depends on the target year's leap status.
pub open spec fn pred_month_end(v: Ymd) -> Ymd {
    month_end(pred_month_start(v))
}

/// The first day of the month after: the month field rolls from 12 to 1
/// and then the year is incremented.
pub open spec fn succ_month_start(v: Ymd) -> Ymd {
    if v.month == 12 {
        Ymd { year: v.year + 1, month: 1, day: 1 }
    } else {
        Ymd { year: v.year, month: v.month + 1, day: 1 }
    }
}

/// The last day of the month after.
pub open spec fn succ_month_end(v: Ymd) -> Ymd {
    month_end(succ_month_start(v))
}

/// The day index of the Monday that opens the ISO-8601 week holding `v`.
pub open spec fn week_start_index(v: Ymd) -> int {
    day_index(v) - weekday_of(v)
}

// ---------------------------------------------------------------------------
// Arithmetic groundwork.
// ---------------------------------------------------------------------------

/// Stepping the numerator down by one lowers the quotient exactly at the
/// multiples of the divisor.
proof fn lemma_div_step(x: int, d: int)
    requires
        d > 0,
    ensures
        x / d - (x - 1) / d == if x % d == 0 { 1int } else { 0int },
{
    lemma_fundamental_div_mod(x, d);
    lemma_mod_division_less_than_divisor(x, d);
    if x % d == 0 {
        lemma_mul_is_commutative(x / d - 1, d);
        lemma_mul_is_distributive_sub(d, x / d, 1);
        lemma_fundamental_div_mod_converse_div(x - 1, d, x / d - 1, d - 1);
    } else {
        lemma_mul_is_commutative(x / d, d);
        lemma_fundamental_div_mod_converse_div(x - 1, d, x / d, x % d - 1);
    }
}

/// A year divisible by 400 is divisible by 100, and one divisible by 100
/// is divisible by 4.
proof fn lemma_divisibility_chain(y: int)
    ensures
        y % 400 == 0 ==> y % 100 == 0,
        y % 100 == 0 ==> y % 4 == 0,
{
    if y % 400 == 0 {
        lemma_fundamental_div_mod(y, 400);
        lemma_mul_is_associative(100, 4, y / 400);
        lemma_mul_is_commutative(100, 4 * (y / 400));
        lemma_fundamental_div_mod_converse_mod(y, 100, 4 * (y / 400), 0);
    }
    if y % 100 == 0 {
        lemma_fundamental_div_mod(y, 100);
        lemma_mul_is_associative(4, 25, y / 100);
        lemma_mul_is_commutative(4, 25 * (y / 100));
        lemma_fundamental_div_mod_converse_mod(y, 4, 25 * (y / 100), 0);
    }
}

/// Moving to the next year adds one year's worth of days.
pub(crate) proof fn lemma_days_before_year_succ(y: int)
    ensures
        days_before_year(y + 1) == days_before_year(y) + if is_leap(y) { 366int } else { 365int },
{
    lemma_div_step(y, 4);
    lemma_div_step(y, 100);
    lemma_div_step(y, 400);
    lemma_divisibility_chain(y);
}

/// The twelve months of a year sum to 365 days, or 366 in a leap year.
pub(crate) proof fn lemma_days_in_year(y: int)
    ensures
        days_before_month(y, 13) == if is_leap(y) { 366int } else { 365int },
{
    reveal_with_fuel(days_before_month, 13);
}

/// `days_before_month` grows with the month, by at least the length of
/// each month passed over.
pub(crate) proof fn lemma_days_before_month_mono(y: int, m1: int, m2: int)
    requires
        1 <= m1 <= m2 <= 13,
    ensures
        days_before_month(y, m1) <= days_before_month(y, m2),
        m1 < m2 ==> days_before_month(y, m1) + days_in_month(y, m1) <= days_before_month(y, m2),
    decreases m2 - m1,
{
    if m1 < m2 {
        lemma_days_before_month_mono(y, m1, m2 - 1);
        assert(days_before_month(y, m2) == days_before_month(y, m2 - 1) + days_in_month(
            y,
            m2 - 1,
        ));
    }
}

/// `days_before_year` grows by at least 365 days a year.
pub(crate) proof fn lemma_days_before_year_mono(y1: int, y2: int)
    requires
        y1 <= y2,
    ensures
        days_before_year(y1) + 365 * (y2 - y1) <= days_before_year(y2),
    decreases y2 - y1,
{
    if y1 < y2 {
        lemma_days_before_year_mono(y1, y2 - 1);
        lemma_days_before_year_succ(y2 - 1);
    }
}

/// A day of year `y` lies between New Year's Day of `y` (inclusive) and
/// New Year's Day of `y + 1` (exclusive).
pub(crate) proof fn lemma_day_index_in_year(v: Ymd)
    requires
        1 <= v.month <= 12,
        1 <= v.day <= days_in_month(v.year, v.month),
    ensures
        days_before_year(v.year) <= day_index(v),
        day_index(v) < days_before_year(v.year + 1),
{
    lemma_days_before_month_mono(v.year, 1, v.month);
    lemma_days_before_month_mono(v.year, v.month, 13);
    lemma_days_in_year(v.year);
    lemma_days_before_year_succ(v.year);
}

/// Every valid date lies between the first and the last representable day.
pub proof fn lemma_day_index_bounds(v: Ymd)
    requires
        valid_date(v),
    ensures
        min_day_index() <= day_index(v) <= max_day_index(),
{
    lemma_day_index_in_year(v);
    assert(days_before_month(MIN_YEAR as int, 1) == 0);
    lemma_days_before_year_mono(MIN_YEAR as int, v.year);
    lemma_days_before_year_mono(v.year + 1, MAX_YEAR as int + 1);
    lemma_days_in_year(MAX_YEAR as int);
    lemma_days_before_year_succ(MAX_YEAR as int);
    assert(days_before_month(MAX_YEAR as int, 13) == days_before_month(MAX_YEAR as int, 12)
        + days_in_month(MAX_YEAR as int, 12));
}

/// The day index determines the date: two valid dates on the same day of
/// the time line are equal.
pub proof fn lemma_day_index_injective(a: Ymd, b: Ymd)
    requires
        valid_date(a),
        valid_date(b),
        day_index(a) == day_index(b),
    ensures
        a == b,
{
    lemma_day_index_in_year(a);
    lemma_day_index_in_year(b);
    if a.year < b.year {
        lemma_days_before_year_mono(a.year + 1, b.year);
        assert(false);
    }
    if b.year < a.year {
        lemma_days_before_year_mono(b.year + 1, a.year);
        assert(false);
    }
    if a.month < b.month {
        lemma_days_before_month_mono(a.year, a.month, b.month);
        assert(false);
    }
    if b.month < a.month {
        lemma_days_before_month_mono(a.year, b.month, a.month);
        assert(false);
    }
}

/// A day `7 * j + k` days after the Monday that opens the week of `v` has
/// weekday `k`: weeks repeat with period seven.
pub proof fn lemma_weekday_at_offset(v: Ymd, w: Ymd, j: int, k: int)
    requires
        day_index(w) == week_start_index(v) + 7 * j + k,
        0 <= k < 7,
    ensures
        weekday_of(w) == k,
{
    lemma_fundamental_div_mod(day_index(v), 7);
    lemma_mul_is_distributive_add(7, day_index(v) / 7, j);
    lemma_mod_multiples_vanish(day_index(v) / 7 + j, k, 7);
    lemma_small_mod(k as nat, 7);
}

/// Restates the distance to the first representable day over a year
/// shifted to be non-negative, the form the executable weekday code uses.
/// The shift of 10000 years is a whole number of 400-year cycles.
pub(crate) proof fn lemma_day_index_from_min(v: Ymd)
    requires
        MIN_YEAR as int <= v.year <= MAX_YEAR as int,
    ensures
        min_day_index() == -3652425,
        day_index(v) - min_day_index() == 365 * (v.year + 9999) + (v.year + 9999) / 4 - (v.year
            + 9999) / 100 + (v.year + 9999) / 400 + days_before_month(v.year, v.month) + v.day - 1,
{
    let x = v.year - 1;
    lemma_hoist_over_denominator(x, 2500, 4);
    lemma_hoist_over_denominator(x, 100, 100);
    lemma_hoist_over_denominator(x, 25, 400);
    lemma_fundamental_div_mod_converse_div(-10000, 4, -2500, 0);
    lemma_fundamental_div_mod_converse_div(-10000, 100, -100, 0);
    lemma_fundamental_div_mod_converse_div(-10000, 400, -25, 0);
    assert(days_before_month(MIN_YEAR as int, 1) == 0);
}

// ---------------------------------------------------------------------------
// Laws of the calendar model.
// ---------------------------------------------------------------------------

/// The leap rule: years divisible by 4 but not by 100 are leap, years
/// divisible by 100 but not by 400 are not, and years divisible by 400 are.
pub proof fn lemma_leap_rule(y: int)
    ensures
        y % 4 == 0 && y % 100 != 0 ==> is_leap(y),
        y % 100 == 0 && y % 400 != 0 ==> !is_leap(y),
        y % 400 == 0 ==> is_leap(y),
{
}

/// February is 29 days long exactly in a leap year; the length of every
/// other month does not depend on the year.
pub proof fn lemma_month_length(y: int, y2: int, m: int)
    ensures
        days_in_month(y, 2) == if is_leap(y) { 29int } else { 28int },
        m != 2 ==> days_in_month(y, m) == days_in_month(y2, m),
{
}

/// Containment: the first day of a date's month is day 1 and the last is
/// the month's length, both in the date's own year and month, and both
/// are valid dates.
pub proof fn lemma_containment(v: Ymd)
    requires
        valid_date(v),
    ensures
        month_start(v).day == 1,
        month_end(v).day == days_in_month(v.year, v.month),
        month_start(v).year == v.year && month_start(v).month == v.month,
        month_end(v).year == v.year && month_end(v).month == v.month,
        valid_date(month_start(v)),
        valid_date(month_end(v)),
{
}

/// Week well-formedness: the start of a date's week falls on a Monday, the
/// end on a Sunday, and the two are six days apart.
pub proof fn lemma_week_well_formedness(v: Ymd, s: Ymd, e: Ymd)
    requires
        valid_date(v),
        day_index(s) == week_start_index(v),
        day_index(e) == week_start_index(v) + 6,
    ensures
        weekday_of(s) == 0,
        weekday_of(e) == 6,
        day_index(e) - day_index(s) == 6,
{
    lemma_weekday_at_offset(v, s, 0, 0);
    lemma_weekday_at_offset(v, e, 0, 6);
}

/// Taking the start of a month is idempotent.
pub proof fn lemma_month_start_idempotent(v: Ymd)
    requires
        valid_date(v),
    ensures
        valid_date(month_start(v)),
        month_start(month_start(v)) == month_start(v),
{
}

/// Taking the start of a year is idempotent.
pub proof fn lemma_year_start_idempotent(v: Ymd)
    requires
        valid_date(v),
    ensures
        valid_date(year_start(v)),
        year_start(year_start(v)) == year_start(v),
{
}

/// Taking the start of a week is idempotent: a day on the Monday that
/// opens the week of `v` is the start of its own week, and that week
/// start is again representable.
pub proof fn lemma_week_start_idempotent(v: Ymd, s: Ymd)
    requires
        valid_date(v),
        valid_date(s),
        day_index(s) == week_start_index(v),
    ensures
        week_start_index(s) == day_index(s),
        min_day_index() <= week_start_index(s),
{
    lemma_weekday_at_offset(v, s, 0, 0);
    lemma_day_index_bounds(s);
}

} // verus!
