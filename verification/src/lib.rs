//! Calendar-date navigation to period anchor points.
//!
//! The crate centers on one value type, [`date::Date`]: a day of the
//! proleptic Gregorian calendar. The [`naive::DateTransitions`] trait moves
//! such a day to the first or last day of its week, month or year, and to
//! the same anchors of the neighbouring week, month or year, with the
//! month/year rollover handled once and proved correct.

pub mod calendar;
pub mod date;
pub mod naive;
