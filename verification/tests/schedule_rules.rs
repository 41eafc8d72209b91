use chrono::{DateTime, Datelike, Duration, Local, NaiveDate, TimeZone, Timelike, Utc, Weekday};
use jade_core::cron::{next_occurrence, normalize_cron, occurrence_result, parse_cron};
use jade_core::models::Error;
use jade_core::time_helpers::{
    days_until_monday_on_or_after, days_until_next_monday, first_monday_next_month_at,
    next_hour_rounded, next_hour_rounded_from, next_monday_at, pick_instant, push_to_today_at,
    push_to_tomorrow_at,
};

fn nanos<Tz: TimeZone>(dt: DateTime<Tz>) -> i64 {
    dt.with_timezone(&Utc).timestamp_nanos_opt().unwrap()
}

fn local(t: i64) -> DateTime<Local> {
    DateTime::from_timestamp_nanos(t).with_timezone(&Local)
}

#[test]
fn rejects_empty_and_invalid() {
    assert!(matches!(parse_cron(""), Err(Error::InvalidCron(_))));
    assert!(matches!(parse_cron("not a cron"), Err(Error::InvalidCron(_))));
    assert!(normalize_cron(Some("   ")).unwrap().is_none());
}

#[test]
fn next_daily_at_nine() {
    // 2026-07-21 is a Tuesday; local 8:00 → next is same day 09:00 local.
    let after = Local.with_ymd_and_hms(2026, 7, 21, 8, 0, 0).unwrap();
    let next = next_occurrence("0 9 * * *", nanos(after)).unwrap();
    let next_local = local(next);
    assert_eq!(next_local.hour(), 9);
    assert_eq!(next_local.minute(), 0);
    assert_eq!(next_local.date_naive(), after.date_naive());
}

#[test]
fn next_skips_when_after_is_past_match() {
    let after = Local.with_ymd_and_hms(2026, 7, 21, 10, 0, 0).unwrap();
    let next = next_occurrence("0 9 * * *", nanos(after)).unwrap();
    let next_local = local(next);
    assert_eq!(
        next_local.date_naive(),
        Local.with_ymd_and_hms(2026, 7, 22, 9, 0, 0).unwrap().date_naive()
    );
}

#[test]
fn next_hour_rounds_up_from_partial_hour() {
    let now = Utc.with_ymd_and_hms(2026, 7, 20, 14, 23, 45).unwrap();
    let result = next_hour_rounded(nanos(now)).unwrap();
    let l = local(result);
    assert_eq!(l.minute(), 0);
    assert_eq!(l.second(), 0);
    let expected_hour = (now.with_timezone(&Local).hour() + 1) % 24;
    assert_eq!(l.hour(), expected_hour);
}

#[test]
fn next_hour_from_exact_hour_advances() {
    let l = Local.with_ymd_and_hms(2026, 7, 20, 15, 0, 0).unwrap();
    let result = next_hour_rounded(nanos(l)).unwrap();
    assert_eq!(local(result), (l + Duration::hours(1)).with_timezone(&Local));
}

#[test]
fn push_to_today_preserves_time() {
    let now = Local.with_ymd_and_hms(2026, 7, 20, 10, 0, 0).unwrap();
    let due = Local.with_ymd_and_hms(2026, 7, 22, 9, 30, 0).unwrap();
    let result = local(push_to_today_at(nanos(due), nanos(now)).unwrap());
    assert_eq!(result.date_naive(), now.date_naive());
    assert_eq!(result.time(), due.time());
}

#[test]
fn push_to_tomorrow_is_relative_to_now_not_due() {
    let now = Local.with_ymd_and_hms(2026, 7, 20, 10, 0, 0).unwrap();
    let due = Local.with_ymd_and_hms(2026, 7, 22, 9, 30, 0).unwrap();
    let result = local(push_to_tomorrow_at(nanos(due), nanos(now)).unwrap());
    assert_eq!(result.date_naive(), NaiveDate::from_ymd_opt(2026, 7, 21).unwrap());
    assert_eq!(result.time(), due.time());

    // Applying again stays on tomorrow (idempotent vs advancing from due).
    let again = local(push_to_tomorrow_at(nanos(result), nanos(now)).unwrap());
    assert_eq!(again.date_naive(), result.date_naive());
}

#[test]
fn next_monday_from_wednesday_now() {
    let now = Local.with_ymd_and_hms(2026, 7, 22, 8, 0, 0).unwrap();
    let due = Local.with_ymd_and_hms(2026, 7, 15, 10, 0, 0).unwrap();
    let result = local(next_monday_at(nanos(due), nanos(now)).unwrap());
    assert_eq!(result.weekday(), Weekday::Mon);
    assert_eq!(result.date_naive(), NaiveDate::from_ymd_opt(2026, 7, 27).unwrap());
    assert_eq!(result.time(), due.time());
}

#[test]
fn first_monday_next_month_from_now_not_due() {
    let now = Local.with_ymd_and_hms(2026, 7, 15, 10, 30, 0).unwrap();
    let due = Local.with_ymd_and_hms(2026, 12, 10, 10, 30, 0).unwrap();
    let result = local(first_monday_next_month_at(nanos(due), nanos(now)).unwrap());
    assert_eq!(result.weekday(), Weekday::Mon);
    assert_eq!(result.date_naive(), NaiveDate::from_ymd_opt(2026, 8, 3).unwrap());
    assert_eq!(result.time(), due.time());
}

#[test]
fn first_monday_next_month_rolls_year() {
    let now = Local.with_ymd_and_hms(2026, 12, 10, 8, 0, 0).unwrap();
    let due = Local.with_ymd_and_hms(2026, 7, 1, 8, 0, 0).unwrap();
    let result = local(first_monday_next_month_at(nanos(due), nanos(now)).unwrap());
    assert_eq!(result.date_naive(), NaiveDate::from_ymd_opt(2027, 1, 4).unwrap());
}

#[test]
fn first_monday_next_month_when_first_is_monday() {
    let now = Local.with_ymd_and_hms(2027, 1, 15, 9, 0, 0).unwrap();
    let due = Local.with_ymd_and_hms(2026, 7, 1, 9, 0, 0).unwrap();
    let result = local(first_monday_next_month_at(nanos(due), nanos(now)).unwrap());
    assert_eq!(result.date_naive(), NaiveDate::from_ymd_opt(2027, 2, 1).unwrap());
}

#[test]
fn next_monday_from_monday_skips_to_following() {
    let now = Local.with_ymd_and_hms(2026, 7, 20, 10, 0, 0).unwrap();
    let due = Local.with_ymd_and_hms(2026, 7, 20, 10, 0, 0).unwrap();
    let result = local(next_monday_at(nanos(due), nanos(now)).unwrap());
    assert_eq!(result.weekday(), Weekday::Mon);
    assert_eq!(result.date_naive(), NaiveDate::from_ymd_opt(2026, 7, 27).unwrap());
}

#[test]
fn weekday_tables() {
    assert_eq!(days_until_next_monday(0), 7);
    assert_eq!(days_until_next_monday(2), 5);
    assert_eq!(days_until_next_monday(6), 1);
    assert_eq!(days_until_monday_on_or_after(0), 0);
    assert_eq!(days_until_monday_on_or_after(3), 4);
}

#[test]
fn next_hour_from_clock_reading() {
    let hour: i64 = 3_600_000_000_000;
    assert_eq!(next_hour_rounded_from(10 * hour, 0, 0, 0), Some(11 * hour));
    let now = 10 * hour + (23 * 60 + 45) * 1_000_000_000 + 7;
    assert_eq!(next_hour_rounded_from(now, 23, 45, 7), Some(11 * hour));
    assert_eq!(next_hour_rounded_from(i64::MAX, 0, 0, 0), None);
}

#[test]
fn occurrence_outcomes_become_results() {
    assert_eq!(occurrence_result(Ok(Some(42))), Ok(42));
    assert_eq!(
        occurrence_result(Ok(None)),
        Err(Error::InvalidCron("could not compute next occurrence: time out of range".into()))
    );
    assert_eq!(
        occurrence_result(Err("no match".into())),
        Err(Error::InvalidCron("could not compute next occurrence: no match".into()))
    );
}

#[test]
fn exact_time_is_preferred_over_noon() {
    assert_eq!(pick_instant(Some(5), Some(9)), Some(5));
    assert_eq!(pick_instant(None, Some(9)), Some(9));
    assert_eq!(pick_instant(None, None), None);
    assert_eq!(pick_instant(Some(5), None), Some(5));
}

#[test]
fn presets_keep_the_time_of_day_when_it_exists() {
    let now = nanos(Local.with_ymd_and_hms(2026, 7, 20, 10, 0, 0).unwrap());
    let due = Local.with_ymd_and_hms(2026, 7, 22, 9, 30, 0).unwrap();
    let moved = push_to_tomorrow_at(nanos(due), now).unwrap();
    let local = DateTime::from_timestamp_nanos(moved).with_timezone(&Local);
    assert_eq!(local.time(), due.time());
}
