use loan_wallet::services::clock::{fmt_date_local, local_at, parse_date, today_local};
use loan_wallet::services::installment::{build_installments, parse_plan, schedule_fits, InstallmentPlan};

/// 2026-06-15, in days since 1970-01-01.
const TODAY: i64 = 20_619;

#[test]
fn parses_short() {
    let p = parse_plan("3/30").unwrap();
    assert_eq!(p.count, 3);
    assert_eq!(p.period_days, 30);
    assert!(p.first_due.is_none());
}

#[test]
fn parses_with_date() {
    let p = parse_plan("4 / 15 / 2026-07-01").unwrap();
    assert_eq!(p.count, 4);
    assert_eq!(p.period_days, 15);
    assert!(p.first_due.is_some());
}

#[test]
fn rejects_garbage() {
    assert!(parse_plan("abc").is_none());
    assert!(parse_plan("3").is_none());
    assert!(parse_plan("0/30").is_none());
    assert!(parse_plan("3/0").is_none());
    assert!(parse_plan("3/30/notadate").is_none());
}

#[test]
fn builds_sums_exactly() {
    let plan = InstallmentPlan { count: 3, period_days: 30, first_due: None };
    let xs = build_installments(&plan, 1000, TODAY);
    let sum: i64 = xs.iter().map(|x| x.amount_minor).sum();
    assert_eq!(sum, 1000);
    assert_eq!(xs[0].amount_minor, xs[1].amount_minor);
}

#[test]
fn first_due_is_nine_local_on_the_date() {
    // 2026-06-15 09:00 at UTC+5 is 04:00 UTC: 1781496000.
    let p = parse_plan("3/30/2026-06-15").unwrap();
    assert_eq!(p.first_due, Some(1_781_496_000));
    assert_eq!(parse_date("1970-01-02"), Some(1));
    assert_eq!(local_at(0, 9, 0), 4 * 3600);
}

#[test]
fn plan_limits_and_signs() {
    assert!(parse_plan("61/30").is_none());
    assert!(parse_plan("3/366").is_none());
    assert!(parse_plan("60/365").is_some());
    assert!(parse_plan("+3/30").is_some());
    assert!(parse_plan("-3/30").is_none());
    assert!(parse_plan("3/30/2026-06-15/x").is_none());
}

#[test]
fn schedule_dates_and_remainder() {
    let plan = InstallmentPlan { count: 3, period_days: 10, first_due: Some(1000) };
    let xs = build_installments(&plan, 100, TODAY);
    let dues: Vec<i64> = xs.iter().map(|x| x.due_date).collect();
    assert_eq!(dues, vec![1000, 1000 + 864_000, 1000 + 1_728_000]);
    let amounts: Vec<i64> = xs.iter().map(|x| x.amount_minor).collect();
    assert_eq!(amounts, vec![33, 33, 34]);
    assert!(xs.iter().all(|x| !x.paid && x.due_notified_at.is_none()));
    assert!(build_installments(&plan, 0, TODAY).is_empty());
    let open = InstallmentPlan { count: 2, period_days: 30, first_due: None };
    let ys = build_installments(&open, 10, TODAY);
    assert_eq!(ys[0].due_date, local_at(TODAY + 30, 9, 0));
    assert_eq!(ys[1].due_date, local_at(TODAY + 60, 9, 0));
    // 2026-06-15 04:00 UTC is 09:00 that day local; 19:00 UTC the day before is midnight
    assert_eq!(today_local(1_781_496_000), TODAY);
    assert_eq!(today_local(1_781_463_599), TODAY - 1);
    assert_eq!(today_local(-18_001), -1);
    assert_eq!(today_local(i64::MAX), (i64::MAX as i128 + 18_000).div_euclid(86_400) as i64);
}

#[test]
fn local_dates_are_written_in_utc_plus_five() {
    assert_eq!(fmt_date_local(0), "1970-01-01");
    assert_eq!(fmt_date_local(1_781_496_000), "2026-06-15");
    // midnight local is 19:00 UTC the day before
    assert_eq!(fmt_date_local(1_781_463_600), "2026-06-15");
    assert_eq!(fmt_date_local(1_781_463_599), "2026-06-14");
    assert_eq!(fmt_date_local(-18_001), "1969-12-31");
    assert_eq!(fmt_date_local(-18_000), "1970-01-01");
    assert_eq!(fmt_date_local(local_at(parse_date("2026-07-01").unwrap(), 9, 0)), "2026-07-01");
}

#[test]
fn schedules_past_the_end_of_time_are_refused() {
    assert!(schedule_fits(&parse_plan("3/30").unwrap(), TODAY));
    assert!(schedule_fits(&parse_plan("60/365/2026-06-15").unwrap(), TODAY));
    assert!(schedule_fits(&InstallmentPlan { count: 1, period_days: 365, first_due: Some(i64::MAX) }, TODAY));
    assert!(!schedule_fits(&InstallmentPlan { count: 2, period_days: 1, first_due: Some(i64::MAX - 10) }, TODAY));
    assert!(!schedule_fits(&InstallmentPlan { count: u32::MAX, period_days: u32::MAX, first_due: None }, TODAY));
}

#[test]
fn dates_to_the_ends_of_chrono() {
    assert_eq!(fmt_date_local(-8_334_601_246_800), "-262143-01-01");
    assert_eq!(fmt_date_local(8_210_266_858_799), "+262142-12-31");
    assert!(schedule_fits(&InstallmentPlan { count: 2, period_days: 10, first_due: None }, i64::MAX / 100_000));
    assert!(!schedule_fits(&InstallmentPlan { count: 2, period_days: 10, first_due: None }, i64::MAX / 86_400));
}
