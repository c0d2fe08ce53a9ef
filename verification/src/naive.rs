//! Period-boundary navigation for calendar dates.
//!
//! [`DateTransitions`] moves a date to the first or last day of the week,
//! month or year containing it, and to the same anchors of the period
//! immediately before or after. Weeks follow ISO 8601: Monday to Sunday.
//! Every operation returns `None` exactly when the target day lies outside
//! the representable calendar range, and never a wrong or clamped date.

use vstd::prelude::*;
use crate::calendar::{
    day_index, days_in_month, is_leap, lemma_weekday_at_offset, max_day_index, min_day_index,
    month_end, month_start, pred_month_end, pred_month_start, pred_year_end, pred_year_start,
    succ_month_end, succ_month_start, succ_year_end, succ_year_start, valid_date,
    week_start_index, weekday_of, year_end, year_start, Ymd, MAX_YEAR, MIN_YEAR,
};
use crate::date::{month_length, leap_year, Date};

verus! {

/// Transitions from a date to the anchor days of its own, its previous
/// and its next week, month and year.
///
/// `ymd` is the implementing type's view as a plain (year, month, day)
/// triple; every contract is stated over that triple and the calendar
/// model. All operations require a valid date and return `None` exactly
/// when the target day cannot be represented.
pub trait DateTransitions: Sized {
    /// The date as a (year, month, day) triple of the calendar model.
    spec fn ymd(&self) -> Ymd;

    /// True when the date's year is a leap year.
    fn is_leap_year(&self) -> (r: bool)
        requires
            valid_date(self.ymd()),
        ensures
            r == is_leap(self.ymd().year),
    ;

    /// The number of the last day of the date's month.
    fn last_day_of_month(&self) -> (r: u32)
        requires
            valid_date(self.ymd()),
        ensures
            r as int == days_in_month(self.ymd().year, self.ymd().month),
    ;

    /// January 1 of the date's year.
    fn start_of_year(&self) -> (r: Option<Self>)
        requires
            valid_date(self.ymd()),
        ensures
            r is Some,
            r matches Some(s) ==> s.ymd() == year_start(self.ymd()) && valid_date(s.ymd()),
    ;

    /// December 31 of the date's year.
    fn end_of_year(&self) -> (r: Option<Self>)
        requires
            valid_date(self.ymd()),
        ensures
            r is Some,
            r matches Some(s) ==> s.ymd() == year_end(self.ymd()) && valid_date(s.ymd()),
    ;

    /// The first day of the date's month.
    fn start_of_month(&self) -> (r: Option<Self>)
        requires
            valid_date(self.ymd()),
        ensures
            r is Some,
            r matches Some(s) ==> s.ymd() == month_start(self.ymd()) && valid_date(s.ymd()),
    ;

    /// The last day of the date's month.
    fn end_of_month(&self) -> (r: Option<Self>)
        requires
            valid_date(self.ymd()),
        ensures
            r is Some,
            r matches Some(s) ==> s.ymd() == month_end(self.ymd()) && valid_date(s.ymd()),
    ;

    /// The Monday of the date's ISO-8601 week.
    fn start_of_iso8601_week(&self) -> (r: Option<Self>)
        requires
            valid_date(self.ymd()),
        ensures
            r is Some <==> min_day_index() <= week_start_index(self.ymd()),
            r matches Some(s) ==> valid_date(s.ymd()) && day_index(s.ymd()) == week_start_index(
                self.ymd(),
            ) && weekday_of(s.ymd()) == 0,
    ;

    /// The Sunday of the date's ISO-8601 week.
    fn end_of_iso8601_week(&self) -> (r: Option<Self>)
        requires
            valid_date(self.ymd()),
        ensures
            r is Some <==> week_start_index(self.ymd()) + 6 <= max_day_index(),
            r matches Some(s) ==> valid_date(s.ymd()) && day_index(s.ymd()) == week_start_index(
                self.ymd(),
            ) + 6 && weekday_of(s.ymd()) == 6,
    ;

    /// January 1 of the year before the date's.
    fn start_of_pred_year(&self) -> (r: Option<Self>)
        requires
            valid_date(self.ymd()),
        ensures
            r is Some <==> MIN_YEAR as int <= self.ymd().year - 1,
            r matches Some(s) ==> s.ymd() == pred_year_start(self.ymd()) && valid_date(s.ymd()),
    ;

    /// December 31 of the year before the date's.
    fn end_of_pred_year(&self) -> (r: Option<Self>)
        requires
            valid_date(self.ymd()),
        ensures
            r is Some <==> MIN_YEAR as int <= self.ymd().year - 1,
            r matches Some(s) ==> s.ymd() == pred_year_end(self.ymd()) && valid_date(s.ymd()),
    ;

    /// The first day of the month before the date's, rolling into
    /// December of the previous year from January.
    fn start_of_pred_month(&self) -> (r: Option<Self>)
        requires
            valid_date(self.ymd()),
        ensures
            r is Some <==> self.ymd().month > 1 || MIN_YEAR as int <= self.ymd().year - 1,
            r matches Some(s) ==> s.ymd() == pred_month_start(self.ymd()) && valid_date(s.ymd()),
    ;

    /// The last day of the month before the date's.
    fn end_of_pred_month(&self) -> (r: Option<Self>)
        requires
            valid_date(self.ymd()),
        ensures
            r is Some <==> self.ymd().month > 1 || MIN_YEAR as int <= self.ymd().year - 1,
            r matches Some(s) ==> s.ymd() == pred_month_end(self.ymd()) && valid_date(s.ymd()),
    ;

    /// The Monday of the ISO-8601 week before the date's, anchored at the
    /// current week's start so that a mid-week date cannot drift.
    fn start_of_pred_iso8601_week(&self) -> (r: Option<Self>)
        requires
            valid_date(self.ymd()),
        ensures
            r is Some <==> min_day_index() <= week_start_index(self.ymd()) - 7,
            r matches Some(s) ==> valid_date(s.ymd()) && day_index(s.ymd()) == week_start_index(
                self.ymd(),
            ) - 7 && weekday_of(s.ymd()) == 0,
    ;

    /// The Sunday of the ISO-8601 week before the date's: the day just
    /// before the current week's Monday.
    fn end_of_pred_iso8601_week(&self) -> (r: Option<Self>)
        requires
            valid_date(self.ymd()),
        ensures
            r is Some <==> min_day_index() <= week_start_index(self.ymd()) - 1,
            r matches Some(s) ==> valid_date(s.ymd()) && day_index(s.ymd()) == week_start_index(
                self.ymd(),
            ) - 1 && weekday_of(s.ymd()) == 6,
    ;

    /// January 1 of the year after the date's.
    fn start_of_succ_year(&self) -> (r: Option<Self>)
        requires
            valid_date(self.ymd()),
        ensures
            r is Some <==> self.ymd().year + 1 <= MAX_YEAR as int,
            r matches Some(s) ==> s.ymd() == succ_year_start(self.ymd()) && valid_date(s.ymd()),
    ;

    /// December 31 of the year after the date's.
    fn end_of_succ_year(&self) -> (r: Option<Self>)
        requires
            valid_date(self.ymd()),
        ensures
            r is Some <==> self.ymd().year + 1 <= MAX_YEAR as int,
            r matches Some(s) ==> s.ymd() == succ_year_end(self.ymd()) && valid_date(s.ymd()),
    ;

    /// The first day of the month after the date's, rolling into January
    /// of the next year from December.
    fn start_of_succ_month(&self) -> (r: Option<Self>)
        requires
            valid_date(self.ymd()),
        ensures
            r is Some <==> self.ymd().month < 12 || self.ymd().year + 1 <= MAX_YEAR as int,
            r matches Some(s) ==> s.ymd() == succ_month_start(self.ymd()) && valid_date(s.ymd()),
    ;

    /// The last day of the month after the date's.
    fn end_of_succ_month(&self) -> (r: Option<Self>)
        requires
            valid_date(self.ymd()),
        ensures
            r is Some <==> self.ymd().month < 12 || self.ymd().year + 1 <= MAX_YEAR as int,
            r matches Some(s) ==> s.ymd() == succ_month_end(self.ymd()) && valid_date(s.ymd()),
    ;

    /// The Monday of the ISO-8601 week after the date's, anchored at the
    /// current week's start.
    fn start_of_succ_iso8601_week(&self) -> (r: Option<Self>)
        requires
            valid_date(self.ymd()),
        ensures
            r is Some <==> min_day_index() <= week_start_index(self.ymd()) && week_start_index(
                self.ymd(),
            ) + 7 <= max_day_index(),
            r matches Some(s) ==> valid_date(s.ymd()) && day_index(s.ymd()) == week_start_index(
                self.ymd(),
            ) + 7 && weekday_of(s.ymd()) == 0,
    ;

    /// The Sunday of the ISO-8601 week after the date's.
    fn end_of_succ_iso8601_week(&self) -> (r: Option<Self>)
        requires
            valid_date(self.ymd()),
        ensures
            r is Some <==> min_day_index() <= week_start_index(self.ymd()) && week_start_index(
                self.ymd(),
            ) + 13 <= max_day_index(),
            r matches Some(s) ==> valid_date(s.ymd()) && day_index(s.ymd()) == week_start_index(
                self.ymd(),
            ) + 13 && weekday_of(s.ymd()) == 6,
    ;
}

impl DateTransitions for Date {
    open spec fn ymd(&self) -> Ymd {
        self@
    }

    fn is_leap_year(&self) -> (r: bool) {
        leap_year(self.year())
    }

    fn last_day_of_month(&self) -> (r: u32) {
        month_length(self.year(), self.month()) as u32
    }

    fn start_of_year(&self) -> (r: Option<Self>) {
        Date::from_ymd(self.year(), 1, 1)
    }

    fn end_of_year(&self) -> (r: Option<Self>) {
        Date::from_ymd(self.year(), 12, 31)
    }

    fn start_of_month(&self) -> (r: Option<Self>) {
        Date::from_ymd(self.year(), self.month(), 1)
    }

    fn end_of_month(&self) -> (r: Option<Self>) {
        let ld = month_length(self.year(), self.month());
        Date::from_ymd(self.year(), self.month(), ld)
    }

    fn start_of_iso8601_week(&self) -> (r: Option<Self>) {
        let wd = self.weekday();
        match self.sub_days(wd) {
            Some(s) => {
                proof {
                    lemma_weekday_at_offset(self@, s@, 0, 0);
                }
                Some(s)
            },
            None => None,
        }
    }

    fn end_of_iso8601_week(&self) -> (r: Option<Self>) {
        let wd = self.weekday();
        match self.add_days(6 - wd) {
            Some(s) => {
                proof {
                    lemma_weekday_at_offset(self@, s@, 0, 6);
                }
                Some(s)
            },
            None => None,
        }
    }

    fn start_of_pred_year(&self) -> (r: Option<Self>) {
        Date::from_ymd(self.year() - 1, 1, 1)
    }

    fn end_of_pred_year(&self) -> (r: Option<Self>) {
        Date::from_ymd(self.year() - 1, 12, 31)
    }

    fn start_of_pred_month(&self) -> (r: Option<Self>) {
        let mut month: u8 = self.month() - 1;
        let mut year: i32 = self.year();
        if month == 0 {
            month = 12;
            year = year - 1;
        }
        Date::from_ymd(year, month, 1)
    }

    fn end_of_pred_month(&self) -> (r: Option<Self>) {
        match self.start_of_pred_month() {
            Some(ps) => {
                let ld = month_length(ps.year(), ps.month());
                Date::from_ymd(ps.year(), ps.month(), ld)
            },
            None => None,
        }
    }

    fn start_of_pred_iso8601_week(&self) -> (r: Option<Self>) {
        match self.start_of_iso8601_week() {
            Some(ws) => match ws.sub_days(7) {
                Some(s) => {
                    proof {
                        lemma_weekday_at_offset(self@, s@, -1, 0);
                    }
                    Some(s)
                },
                None => None,
            },
            None => None,
        }
    }

    fn end_of_pred_iso8601_week(&self) -> (r: Option<Self>) {
        match self.start_of_iso8601_week() {
            Some(ws) => match ws.sub_days(1) {
                Some(s) => {
                    proof {
                        lemma_weekday_at_offset(self@, s@, -1, 6);
                    }
                    Some(s)
                },
                None => None,
            },
            None => None,
        }
    }

    fn start_of_succ_year(&self) -> (r: Option<Self>) {
        Date::from_ymd(self.year() + 1, 1, 1)
    }

    fn end_of_succ_year(&self) -> (r: Option<Self>) {
        Date::from_ymd(self.year() + 1, 12, 31)
    }

    fn start_of_succ_month(&self) -> (r: Option<Self>) {
        let mut month: u8 = self.month() + 1;
        let mut year: i32 = self.year();
        if month == 13 {
            month = 1;
            year = year + 1;
        }
        Date::from_ymd(year, month, 1)
    }

    fn end_of_succ_month(&self) -> (r: Option<Self>) {
        match self.start_of_succ_month() {
            Some(ss) => {
                let ld = month_length(ss.year(), ss.month());
                Date::from_ymd(ss.year(), ss.month(), ld)
            },
            None => None,
        }
    }

    fn start_of_succ_iso8601_week(&self) -> (r: Option<Self>) {
        match self.start_of_iso8601_week() {
            Some(ws) => match ws.add_days(7) {
                Some(s) => {
                    proof {
                        lemma_weekday_at_offset(self@, s@, 1, 0);
                    }
                    Some(s)
                },
                None => None,
            },
            None => None,
        }
    }

    fn end_of_succ_iso8601_week(&self) -> (r: Option<Self>) {
        match self.start_of_succ_iso8601_week() {
            Some(ss) => match ss.add_days(6) {
                Some(s) => {
                    proof {
                        lemma_weekday_at_offset(self@, s@, 1, 6);
                    }
                    Some(s)
                },
                None => None,
            },
            None => None,
        }
    }
}

} // verus!
