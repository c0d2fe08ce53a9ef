use chrono_utils::date::Date;
use chrono_utils::naive::DateTransitions;

#[test]
fn test_api_interface() {
    let d1 = Date::from_ymd(1996, 2, 23).unwrap();
    // Month
    assert_eq!(d1.end_of_month().unwrap(), Date::from_ymd(1996, 2, 29).unwrap());
    assert_eq!(d1.start_of_month().unwrap(), Date::from_ymd(1996, 2, 1).unwrap());
    assert_eq!(d1.end_of_pred_month().unwrap(), Date::from_ymd(1996, 1, 31).unwrap());
    assert_eq!(d1.start_of_pred_month().unwrap(), Date::from_ymd(1996, 1, 1).unwrap());
    assert_eq!(d1.end_of_succ_month().unwrap(), Date::from_ymd(1996, 3, 31).unwrap());
    assert_eq!(d1.start_of_succ_month().unwrap(), Date::from_ymd(1996, 3, 1).unwrap());

    // Year
    assert_eq!(d1.end_of_year().unwrap(), Date::from_ymd(1996, 12, 31).unwrap());
    assert_eq!(d1.start_of_year().unwrap(), Date::from_ymd(1996, 1, 1).unwrap());
    assert_eq!(d1.end_of_pred_year().unwrap(), Date::from_ymd(1995, 12, 31).unwrap());
    assert_eq!(d1.start_of_pred_year().unwrap(), Date::from_ymd(1995, 1, 1).unwrap());
    assert_eq!(d1.end_of_succ_year().unwrap(), Date::from_ymd(1997, 12, 31).unwrap());
    assert_eq!(d1.start_of_succ_year().unwrap(), Date::from_ymd(1997, 1, 1).unwrap());

    // ISO 8601 Week
    assert_eq!(d1.end_of_iso8601_week().unwrap(), Date::from_ymd(1996, 2, 25).unwrap());
    assert_eq!(d1.start_of_iso8601_week().unwrap(), Date::from_ymd(1996, 2, 19).unwrap());
    assert_eq!(d1.end_of_pred_iso8601_week().unwrap(), Date::from_ymd(1996, 2, 18).unwrap());
    assert_eq!(d1.start_of_pred_iso8601_week().unwrap(), Date::from_ymd(1996, 2, 12).unwrap());
    assert_eq!(d1.end_of_succ_iso8601_week().unwrap(), Date::from_ymd(1996, 3, 3).unwrap());
    assert_eq!(d1.start_of_succ_iso8601_week().unwrap(), Date::from_ymd(1996, 2, 26).unwrap());

    // Leap year
    assert_eq!(d1.is_leap_year(), true);
    let d2 = Date::from_ymd(1900, 7, 4).unwrap();
    assert_eq!(d2.is_leap_year(), false);
}

#[test]
fn leap_rule_examples() {
    assert_eq!(Date::from_ymd(1996, 8, 14).unwrap().is_leap_year(), true);
    assert_eq!(Date::from_ymd(1900, 2, 28).unwrap().is_leap_year(), false);
    assert_eq!(Date::from_ymd(2000, 2, 29).unwrap().is_leap_year(), true);
    assert_eq!(Date::from_ymd(1997, 11, 3).unwrap().is_leap_year(), false);
    assert_eq!(Date::from_ymd(-400, 6, 1).unwrap().is_leap_year(), true);
    assert_eq!(Date::from_ymd(-100, 6, 1).unwrap().is_leap_year(), false);
    assert_eq!(Date::from_ymd(-4, 6, 1).unwrap().is_leap_year(), true);
}

#[test]
fn month_lengths_leap_year() {
    let expected = [31, 29, 31, 30, 31, 30, 31, 31, 30, 31, 30, 31];
    for m in 1..=12u8 {
        let d = Date::from_ymd(1996, m, 1).unwrap();
        assert_eq!(d.last_day_of_month(), expected[(m - 1) as usize]);
    }
}

#[test]
fn month_lengths_common_year() {
    let expected = [31, 28, 31, 30, 31, 30, 31, 31, 30, 31, 30, 31];
    for m in 1..=12u8 {
        let d = Date::from_ymd(1995, m, 1).unwrap();
        assert_eq!(d.last_day_of_month(), expected[(m - 1) as usize]);
    }
}

#[test]
fn containment_in_month() {
    let d = Date::from_ymd(2019, 9, 13).unwrap();
    let s = d.start_of_month().unwrap();
    let e = d.end_of_month().unwrap();
    assert_eq!(s.day(), 1);
    assert_eq!(e.day() as u32, d.last_day_of_month());
    assert_eq!(s.year(), 2019);
    assert_eq!(s.month(), 9);
    assert_eq!(e.year(), 2019);
    assert_eq!(e.month(), 9);
}

#[test]
fn week_well_formed() {
    for day in 1..=14u8 {
        let d = Date::from_ymd(2020, 1, day).unwrap();
        let s = d.start_of_iso8601_week().unwrap();
        let e = d.end_of_iso8601_week().unwrap();
        assert_eq!(s.weekday(), 0);
        assert_eq!(e.weekday(), 6);
        assert_eq!(s.add_days(6).unwrap(), e);
    }
}

#[test]
fn start_of_month_idempotent() {
    let d = Date::from_ymd(2004, 2, 20).unwrap();
    let once = d.start_of_month().unwrap();
    let twice = once.start_of_month().unwrap();
    assert_eq!(once, twice);
}

#[test]
fn start_of_year_idempotent() {
    let d = Date::from_ymd(2004, 2, 20).unwrap();
    let once = d.start_of_year().unwrap();
    let twice = once.start_of_year().unwrap();
    assert_eq!(once, twice);
}

#[test]
fn start_of_week_idempotent() {
    let d = Date::from_ymd(2004, 2, 20).unwrap();
    let once = d.start_of_iso8601_week().unwrap();
    let twice = once.start_of_iso8601_week().unwrap();
    assert_eq!(once, twice);
}

#[test]
fn rollover_in_leap_february() {
    let d = Date::from_ymd(1996, 2, 23).unwrap();
    assert_eq!(d.end_of_month().unwrap(), Date::from_ymd(1996, 2, 29).unwrap());
    assert_eq!(d.start_of_pred_month().unwrap(), Date::from_ymd(1996, 1, 1).unwrap());
    assert_eq!(d.end_of_pred_month().unwrap(), Date::from_ymd(1996, 1, 31).unwrap());
    assert_eq!(d.start_of_succ_month().unwrap(), Date::from_ymd(1996, 3, 1).unwrap());
    assert_eq!(d.end_of_succ_month().unwrap(), Date::from_ymd(1996, 3, 31).unwrap());
}

#[test]
fn week_crosses_year_boundary() {
    let d = Date::from_ymd(2020, 1, 2).unwrap();
    assert_eq!(d.start_of_iso8601_week().unwrap(), Date::from_ymd(2019, 12, 30).unwrap());
    assert_eq!(d.end_of_iso8601_week().unwrap(), Date::from_ymd(2020, 1, 5).unwrap());
}

#[test]
fn succ_month_rolls_december_to_january() {
    let d = Date::from_ymd(2019, 12, 12).unwrap();
    assert_eq!(d.start_of_succ_month().unwrap(), Date::from_ymd(2020, 1, 1).unwrap());
    assert_eq!(d.end_of_succ_month().unwrap(), Date::from_ymd(2020, 1, 31).unwrap());
}

#[test]
fn pred_month_rolls_january_to_december() {
    let d = Date::from_ymd(2019, 1, 4).unwrap();
    assert_eq!(d.start_of_pred_month().unwrap(), Date::from_ymd(2018, 12, 1).unwrap());
    assert_eq!(d.end_of_pred_month().unwrap(), Date::from_ymd(2018, 12, 31).unwrap());
}

#[test]
fn pred_week_anchors_on_current_week_start() {
    let d = Date::from_ymd(1996, 3, 1).unwrap();
    assert_eq!(d.start_of_pred_iso8601_week().unwrap(), Date::from_ymd(1996, 2, 19).unwrap());
    assert_eq!(d.end_of_pred_iso8601_week().unwrap(), Date::from_ymd(1996, 2, 25).unwrap());
}

#[test]
fn succ_week_anchors_on_current_week_start() {
    let d = Date::from_ymd(2017, 12, 28).unwrap();
    assert_eq!(d.start_of_succ_iso8601_week().unwrap(), Date::from_ymd(2018, 1, 1).unwrap());
    let d2 = Date::from_ymd(2005, 12, 20).unwrap();
    assert_eq!(d2.end_of_succ_iso8601_week().unwrap(), Date::from_ymd(2006, 1, 1).unwrap());
}

#[test]
fn pred_operations_absent_at_range_floor() {
    let d = Date::from_ymd(-9999, 1, 20).unwrap();
    assert_eq!(d.start_of_pred_year(), None);
    assert_eq!(d.end_of_pred_year(), None);
    assert_eq!(d.start_of_pred_month(), None);
    assert_eq!(d.end_of_pred_month(), None);
}

#[test]
fn pred_month_present_in_february_of_floor_year() {
    let d = Date::from_ymd(-9999, 2, 10).unwrap();
    assert_eq!(d.start_of_pred_month().unwrap(), Date::from_ymd(-9999, 1, 1).unwrap());
    assert_eq!(d.end_of_pred_month().unwrap(), Date::from_ymd(-9999, 1, 31).unwrap());
}

#[test]
fn pred_week_absent_at_range_floor() {
    let d = Date::from_ymd(-9999, 1, 2).unwrap();
    assert_eq!(d.start_of_iso8601_week().unwrap(), Date::from_ymd(-9999, 1, 1).unwrap());
    assert_eq!(d.start_of_pred_iso8601_week(), None);
    assert_eq!(d.end_of_pred_iso8601_week(), None);
}

#[test]
fn first_representable_day_is_a_monday() {
    let d = Date::from_ymd(-9999, 1, 1).unwrap();
    assert_eq!(d.weekday(), 0);
    assert_eq!(d.start_of_iso8601_week().unwrap(), d);
}

#[test]
fn succ_operations_absent_at_range_ceiling() {
    let d = Date::from_ymd(9999, 6, 1).unwrap();
    assert_eq!(d.start_of_succ_year(), None);
    assert_eq!(d.end_of_succ_year(), None);
    let e = Date::from_ymd(9999, 12, 25).unwrap();
    assert_eq!(e.start_of_succ_month(), None);
    assert_eq!(e.end_of_succ_month(), None);
    let last = Date::from_ymd(9999, 12, 31).unwrap();
    assert_eq!(last.start_of_succ_iso8601_week(), None);
    assert_eq!(last.end_of_succ_iso8601_week(), None);
    // The last representable day is a Friday, so its own week has started
    // but cannot be completed.
    assert_eq!(last.weekday(), 4);
    assert_eq!(last.start_of_iso8601_week().unwrap(), Date::from_ymd(9999, 12, 27).unwrap());
    assert_eq!(last.end_of_iso8601_week(), None);
}

#[test]
fn current_period_operations_present_at_range_edges() {
    let low = Date::from_ymd(-9999, 1, 3).unwrap();
    assert_eq!(low.start_of_year().unwrap(), Date::from_ymd(-9999, 1, 1).unwrap());
    assert_eq!(low.start_of_month().unwrap(), Date::from_ymd(-9999, 1, 1).unwrap());
    let high = Date::from_ymd(9999, 12, 29).unwrap();
    assert_eq!(high.end_of_year().unwrap(), Date::from_ymd(9999, 12, 31).unwrap());
    assert_eq!(high.end_of_month().unwrap(), Date::from_ymd(9999, 12, 31).unwrap());
}
