//! Due-date helpers: moving a due time to another local calendar day while
//! keeping its local time of day, and rounding up to the next hour.
//!
//! Local dates and times come from the machine's time zone through
//! `chrono`; the choice of day is computed here.

use vstd::prelude::*;
use chrono::Datelike;
use chrono::Timelike;
use chrono::TimeZone;

verus! {

/// A calendar date in the local time zone.
#[derive(Clone, Copy, Debug, PartialEq, Eq, Structural)]
pub struct CivilDate {
    pub year: i32,
    /// 1 to 12.
    pub month: u32,
    /// 1 to 31.
    pub day: u32,
}

/// A local time of day: seconds since midnight and the nanoseconds past
/// that second.
#[derive(Clone, Copy, Debug, PartialEq, Eq, Structural)]
pub struct TimeOfDay {
    pub secs: u32,
    pub nanos: u32,
}

/// Local noon.
pub open spec fn noon() -> TimeOfDay {
    TimeOfDay { secs: 43200, nanos: 0 }
}

/// Nanoseconds in a day.
pub open spec fn day_nanos() -> int {
    86_400_000_000_000
}

/// Nanoseconds from midnight to local noon.
pub open spec fn noon_nanos() -> int {
    43_200_000_000_000
}

/// Days from 1970-01-01 to `d` in the proleptic Gregorian calendar
/// (negative before), for a date that exists.
pub open spec fn civil_days(d: CivilDate) -> int {
    let y: int = if d.month <= 2 { d.year - 1 } else { d.year as int };
    let era = y / 400;
    let yoe = y - era * 400;
    let mp = (d.month + 9) % 12;
    let doy = (153 * mp + 2) / 5 + d.day - 1;
    let doe = yoe * 365 + yoe / 4 - yoe / 100 + doy;
    era * 146097 + doe - 719468
}

/// A UTC offset as chrono allows one: strictly within a day either way.
pub open spec fn within_day(off: int) -> bool {
    -day_nanos() < off < day_nanos()
}

/// Under some UTC offset, the local clock at instant `t` shows date `d`.
pub open spec fn reads_date(t: int, d: CivilDate) -> bool {
    exists|off: int| #[trigger] within_day(off) && civil_days(d) == (t + off) / day_nanos()
}

/// Under some UTC offset, the local clock at instant `t` shows `tod`
/// nanoseconds past midnight.
pub open spec fn reads_time(t: int, tod: int) -> bool {
    exists|off: int| #[trigger] within_day(off) && tod == (t + off) % day_nanos()
}

/// Under some UTC offset, the local clock at instant `t` shows date `d` at
/// `tod` nanoseconds past midnight.
pub open spec fn shows_at(t: int, d: CivilDate, tod: int) -> bool {
    exists|off: int| #[trigger] within_day(off) && t + off == civil_days(d) * day_nanos() + tod
}

/// The nanoseconds past midnight of a time of day.
pub open spec fn tod_nanos(time: TimeOfDay) -> int {
    time.secs * 1_000_000_000 + time.nanos
}

/// Instant `t` shows date `d` at `tod`, or at noon (a time a clock change
/// skips or repeats falls back to noon).
pub open spec fn lands(t: int, d: CivilDate, tod: int) -> bool {
    shows_at(t, d, tod) || shows_at(t, d, noon_nanos())
}

/// The time of day of `due` is kept and moved to the day `target` picks from
/// the local date of `now`: `t` shows that day at the local time of `due`
/// (or at noon), each reading under some UTC offset of the machine's zone.
pub open spec fn moved_to(t: int, due: int, now: int, target: spec_fn(CivilDate) -> Option<CivilDate>) -> bool {
    exists|today: CivilDate, tod: int| #[trigger] reads_date(now, today) && #[trigger] reads_time(due, tod)
        && (target(today) matches Some(day) && lands(t, day, tod))
}

/// The time of day of `due` kept on the local date of `now` (see [`moved_to`]).
pub open spec fn moved_today(t: int, due: int, now: int) -> bool {
    moved_to(t, due, now, |d: CivilDate| Some(d))
}

/// The time of day of `due` kept on the day after the local date of `now`.
pub open spec fn moved_tomorrow(t: int, due: int, now: int) -> bool {
    moved_to(t, due, now, |d: CivilDate| date_plus_days(d, 1))
}

/// The time of day of `due` kept on the Monday after the local date of `now`.
pub open spec fn moved_next_monday(t: int, due: int, now: int) -> bool {
    moved_to(t, due, now, |d: CivilDate| monday_after(d))
}

/// The time of day of `due` kept on the first Monday of the month after the
/// local date of `now`.
pub open spec fn moved_first_monday(t: int, due: int, now: int) -> bool {
    moved_to(t, due, now, |d: CivilDate| first_monday_after_month(d))
}

/// The Monday after `today` (a week on from a Monday), when chrono gives one.
pub open spec fn monday_after(today: CivilDate) -> Option<CivilDate> {
    match weekday_of(today) {
        Some(w) => date_plus_days(today, days_to_next_monday(w) as i64),
        None => None,
    }
}

/// The first Monday of the month after the month of `today`, when chrono
/// gives one.
pub open spec fn first_monday_after_month(today: CivilDate) -> Option<CivilDate> {
    if today.year == i32::MAX && today.month == 12 {
        None
    } else {
        match weekday_of(first_of_next_month(today)) {
            Some(w) => date_plus_days(first_of_next_month(today), days_to_monday_on_or_after(w) as i64),
            None => None,
        }
    }
}

/// The local calendar date of instant `t` (nanoseconds since the epoch),
/// from `chrono`'s `with_timezone(&Local).date_naive()`. It depends on the
/// machine's time zone; promised is that it is a date `chrono` can hold
/// (see [`date_exists`]), and that it is the date of `t` shifted by the zone's
/// offset, which `chrono` keeps strictly within a day.
#[verifier::external_body]
pub(crate) fn local_date_of(t: i64) -> (r: CivilDate)
    ensures
        date_exists(r),
        reads_date(t as int, r),
{
    let d = chrono::DateTime::from_timestamp_nanos(t).with_timezone(&chrono::Local).date_naive();
    CivilDate { year: d.year(), month: d.month(), day: d.day() }
}

/// The local time of day of instant `t`, from `chrono`'s
/// `with_timezone(&Local).time()`. It depends on the machine's time zone;
/// promised is that it is the time of day of `t` shifted by the zone's
/// offset (strictly within a day); a time from a timestamp is never a leap
/// second.
#[verifier::external_body]
pub(crate) fn local_time_of(t: i64) -> (r: TimeOfDay)
    ensures
        r.secs < 86400,
        r.nanos < 1_000_000_000,
        reads_time(t as int, tod_nanos(r)),
{
    let time = chrono::DateTime::from_timestamp_nanos(t).with_timezone(&chrono::Local).time();
    TimeOfDay { secs: time.num_seconds_from_midnight(), nanos: time.nanosecond() }
}

/// The instant at which the local clock shows `date` at `time`, when there
/// is exactly one (`Local.from_local_datetime(..).single()`); `None` when
/// the time is skipped or repeated by a clock change, or out of range. It
/// depends on the machine's time zone; promised is that the instant, shifted
/// by the zone's offset (strictly within a day), is `date` at `time`.
#[verifier::external_body]
pub(crate) fn local_instant(date: CivilDate, time: TimeOfDay) -> (r: Option<i64>)
    ensures
        r matches Some(t) ==> shows_at(t as int, date, tod_nanos(time)),
{
    let d = chrono::NaiveDate::from_ymd_opt(date.year, date.month, date.day)?;
    let tm = chrono::NaiveTime::from_num_seconds_from_midnight_opt(time.secs, time.nanos)?;
    chrono::Local.from_local_datetime(&d.and_time(tm)).single()?.timestamp_nanos_opt()
}

/// A Gregorian leap year (proleptic, as `chrono` counts years).
pub open spec fn leap_year(y: int) -> bool {
    y % 4 == 0 && (y % 100 != 0 || y % 400 == 0)
}

/// Days in month `m` of year `y`.
pub open spec fn month_days(y: int, m: int) -> int {
    if m == 2 {
        if leap_year(y) {
            29
        } else {
            28
        }
    } else if m == 4 || m == 6 || m == 9 || m == 11 {
        30
    } else {
        31
    }
}

/// A date `chrono` can hold: a real calendar day within its year range
/// (`NaiveDate`'s years run from -262143 to 262142).
pub open spec fn date_exists(d: CivilDate) -> bool {
    &&& -262143 <= d.year <= 262142
    &&& 1 <= d.month <= 12
    &&& 1 <= d.day <= month_days(d.year as int, d.month as int)
}

/// The weekday of a date, counted from Monday = 0; `None` for a date that
/// does not exist. 1970-01-01 was a Thursday.
pub open spec fn weekday_of(date: CivilDate) -> Option<u32> {
    if date_exists(date) {
        Some(((civil_days(date) + 3) % 7) as u32)
    } else {
        None
    }
}

/// The weekday of `date`, counted from Monday = 0
/// (`NaiveDate::from_ymd_opt` then `weekday().num_days_from_monday()`);
/// `None` for a date that does not exist (see [`weekday_of`]).
#[verifier::external_body]
pub(crate) fn weekday_from_monday(date: CivilDate) -> (r: Option<u32>)
    ensures
        r == weekday_of(date),
{
    Some(chrono::NaiveDate::from_ymd_opt(date.year, date.month, date.day)?.weekday().num_days_from_monday())
}

/// The date `n` days after `date`, as `chrono` computes it; `None` for a
/// date that does not exist or a result out of range.
pub uninterp spec fn date_plus_days(date: CivilDate, n: i64) -> Option<CivilDate>;

/// The date `n` days after `date` (`NaiveDate::checked_add_signed` with
/// `TimeDelta::days`); `None` for a date that does not exist, a count out
/// of range, or a result out of range. A result is a date `chrono` can hold
/// exactly `n` days on, and there is one whenever such a date exists.
#[verifier::external_body]
pub(crate) fn add_days(date: CivilDate, n: i64) -> (r: Option<CivilDate>)
    ensures
        r == date_plus_days(date, n),
        r matches Some(d) ==> date_exists(date) && date_exists(d) && civil_days(d) == civil_days(date) + n,
        date_exists(date) && (exists|d: CivilDate| date_exists(d) && #[trigger] civil_days(d) == civil_days(date) + n)
            ==> r is Some,
{
    let d = chrono::NaiveDate::from_ymd_opt(date.year, date.month, date.day)?;
    let r = d.checked_add_signed(chrono::TimeDelta::try_days(n)?)?;
    Some(CivilDate { year: r.year(), month: r.month(), day: r.day() })
}

/// The instant a move lands on: the one at the wanted local time when it
/// occurs exactly once, else the one at local noon.
pub fn pick_instant(exact: Option<i64>, at_noon: Option<i64>) -> (r: Option<i64>)
    ensures
        r == (if exact is Some { exact } else { at_noon }),
{
    match exact {
        Some(t) => Some(t),
        None => at_noon,
    }
}

/// The instant for `date` at the local time `time`, or at local noon when
/// that time does not occur exactly once on that day (a clock change);
/// `None` when neither occurs once. The two instants are found by
/// [`local_instant`] and chosen by [`pick_instant`].
pub fn on_local_date(date: CivilDate, time: TimeOfDay) -> (r: Option<i64>)
    ensures
        r matches Some(t) ==> lands(t as int, date, tod_nanos(time)),
{
    let exact = local_instant(date, time);
    let at_noon = local_instant(date, TimeOfDay { secs: 43200, nanos: 0 });
    pick_instant(exact, at_noon)
}

/// Days from a day with weekday `w` (Monday = 0) to the next Monday
/// strictly after it: a full week from a Monday.
pub open spec fn days_to_next_monday(w: u32) -> int {
    7 - w
}

/// Days to the next Monday strictly after a day with weekday `w`.
pub fn days_until_next_monday(w: u32) -> (r: i64)
    requires
        w < 7,
    ensures
        r == days_to_next_monday(w),
        1 <= r <= 7,
{
    7 - (w as i64)
}

/// Days from a day with weekday `w` to the first Monday on or after it.
pub open spec fn days_to_monday_on_or_after(w: u32) -> int {
    (7 - w) % 7
}

/// Days to the first Monday on or after a day with weekday `w`.
pub fn days_until_monday_on_or_after(w: u32) -> (r: i64)
    requires
        w < 7,
    ensures
        r == days_to_monday_on_or_after(w),
        0 <= r <= 6,
{
    (7 - (w as i64)) % 7
}

/// The first day of the month after the month of `date`.
pub open spec fn first_of_next_month(date: CivilDate) -> CivilDate {
    if date.month == 12 {
        CivilDate { year: (date.year + 1) as i32, month: 1, day: 1 }
    } else {
        CivilDate { year: date.year, month: (date.month + 1) as u32, day: 1 }
    }
}

/// The first day of the month after the month of `date`.
pub fn first_day_of_next_month(date: CivilDate) -> (r: Option<CivilDate>)
    requires
        1 <= date.month <= 12,
    ensures
        date.year < i32::MAX ==> r == Some(first_of_next_month(date)),
        date.year == i32::MAX && date.month == 12 ==> r is None,
        date.month < 12 ==> r == Some(first_of_next_month(date)),
{
    if date.month == 12 {
        if date.year == i32::MAX {
            None
        } else {
            Some(CivilDate { year: date.year + 1, month: 1, day: 1 })
        }
    } else {
        Some(CivilDate { year: date.year, month: date.month + 1, day: 1 })
    }
}

/// The date after `today`.
pub fn tomorrow_of(today: CivilDate) -> (r: Option<CivilDate>)
    ensures
        r == date_plus_days(today, 1),
        r matches Some(d) ==> civil_days(d) == civil_days(today) + 1,
{
    add_days(today, 1)
}

/// The Monday after `today`; a week on when `today` is a Monday.
pub fn next_monday_date(today: CivilDate) -> (r: Option<CivilDate>)
    ensures
        r == match weekday_of(today) {
            Some(w) => date_plus_days(today, days_to_next_monday(w) as i64),
            None => None,
        },
        r matches Some(d) ==> 1 <= civil_days(d) - civil_days(today) <= 7 && (civil_days(d) + 3) % 7 == 0,
{
    let w = weekday_from_monday(today)?;
    let r = add_days(today, days_until_next_monday(w));
    proof {
        lemma_monday_step(civil_days(today), w as int);
    }
    r
}

/// From a day `c` of weekday `w` (Monday = 0), the next Monday strictly
/// after it is 7 - w days on, and the first on or after it (7 - w) % 7.
proof fn lemma_monday_step(c: int, w: int)
    requires
        w == (c + 3) % 7,
    ensures
        (c + (7 - w) + 3) % 7 == 0,
        (c + (7 - w) % 7 + 3) % 7 == 0,
        0 <= (7 - w) % 7 <= 6,
{
    assert((c + (7 - w) + 3) % 7 == 0) by (nonlinear_arith)
        requires w == (c + 3) % 7;
    assert((c + (7 - w) % 7 + 3) % 7 == 0) by (nonlinear_arith)
        requires w == (c + 3) % 7, 0 <= w < 7;
}

/// The first Monday of the month after the month of `today`.
pub fn first_monday_next_month_date(today: CivilDate) -> (r: Option<CivilDate>)
    requires
        1 <= today.month <= 12,
    ensures
        today.year < i32::MAX || today.month < 12 ==> r == match weekday_of(first_of_next_month(today)) {
            Some(w) => date_plus_days(first_of_next_month(today), days_to_monday_on_or_after(w) as i64),
            None => None,
        },
        today.year == i32::MAX && today.month == 12 ==> r is None,
        r matches Some(d) ==> 0 <= civil_days(d) - civil_days(first_of_next_month(today)) <= 6
            && (civil_days(d) + 3) % 7 == 0,
{
    let first = first_day_of_next_month(today)?;
    let w = weekday_from_monday(first)?;
    let r = add_days(first, days_until_monday_on_or_after(w));
    proof {
        lemma_monday_step(civil_days(first), w as int);
    }
    r
}

proof fn lemma_moved(
    t: int,
    due: int,
    now: int,
    today: CivilDate,
    tod: int,
    target: spec_fn(CivilDate) -> Option<CivilDate>,
    day: CivilDate,
)
    requires
        reads_date(now, today),
        reads_time(due, tod),
        target(today) == Some(day),
        lands(t, day, tod),
    ensures
        moved_to(t, due, now, target),
{
}

/// Keeps the local time of day of `due_at` and moves it to the local date
/// of `now`.
pub fn push_to_today_at(due_at: i64, now: i64) -> (r: Option<i64>)
    ensures
        r matches Some(t) ==> moved_today(t as int, due_at as int, now as int),
{
    let today = local_date_of(now);
    let time = local_time_of(due_at);
    let r = on_local_date(today, time);
    proof {
        if let Some(t) = r {
            lemma_moved(t as int, due_at as int, now as int, today, tod_nanos(time), |d: CivilDate| Some(d), today);
        }
    }
    r
}

/// Keeps the local time of day of `due_at` and moves it to today.
pub fn push_to_today(due_at: i64) -> (r: Option<i64>)
    ensures
        r matches Some(t) ==> exists|now: int| #[trigger] moved_today(t as int, due_at as int, now),
{
    let now = crate::ids::now_nanos()?;
    push_to_today_at(due_at, now)
}

/// Keeps the local time of day of `due_at` and moves it to the day after
/// the local date of `now` (tomorrow relative to now, not to the due date).
pub fn push_to_tomorrow_at(due_at: i64, now: i64) -> (r: Option<i64>)
    ensures
        r matches Some(t) ==> moved_tomorrow(t as int, due_at as int, now as int),
{
    let today = local_date_of(now);
    let tomorrow = tomorrow_of(today)?;
    let time = local_time_of(due_at);
    let r = on_local_date(tomorrow, time);
    proof {
        if let Some(t) = r {
            lemma_moved(t as int, due_at as int, now as int, today, tod_nanos(time), |d: CivilDate| date_plus_days(d, 1), tomorrow);
        }
    }
    r
}

/// Keeps the local time of day of `due_at` and moves it to tomorrow.
pub fn push_to_tomorrow(due_at: i64) -> (r: Option<i64>)
    ensures
        r matches Some(t) ==> exists|now: int| #[trigger] moved_tomorrow(t as int, due_at as int, now),
{
    let now = crate::ids::now_nanos()?;
    push_to_tomorrow_at(due_at, now)
}

/// Keeps the local time of day of `due_at` and moves it to the Monday after
/// the local date of `now` (a week on when that is a Monday).
pub fn next_monday_at(due_at: i64, now: i64) -> (r: Option<i64>)
    ensures
        r matches Some(t) ==> moved_next_monday(t as int, due_at as int, now as int),
{
    let today = local_date_of(now);
    let day = next_monday_date(today)?;
    let time = local_time_of(due_at);
    let r = on_local_date(day, time);
    proof {
        if let Some(t) = r {
            lemma_moved(t as int, due_at as int, now as int, today, tod_nanos(time), |d: CivilDate| monday_after(d), day);
        }
    }
    r
}

/// Keeps the local time of day of `due_at` and moves it to next Monday.
pub fn next_monday(due_at: i64) -> (r: Option<i64>)
    ensures
        r matches Some(t) ==> exists|now: int| #[trigger] moved_next_monday(t as int, due_at as int, now),
{
    let now = crate::ids::now_nanos()?;
    next_monday_at(due_at, now)
}

/// Keeps the local time of day of `due_at` and moves it to the first Monday
/// of the month after the local date of `now`.
pub fn first_monday_next_month_at(due_at: i64, now: i64) -> (r: Option<i64>)
    ensures
        r matches Some(t) ==> moved_first_monday(t as int, due_at as int, now as int),
{
    let today = local_date_of(now);
    let day = first_monday_next_month_date(today)?;
    let time = local_time_of(due_at);
    let r = on_local_date(day, time);
    proof {
        if let Some(t) = r {
            lemma_moved(t as int, due_at as int, now as int, today, tod_nanos(time),
                |d: CivilDate| first_monday_after_month(d), day);
        }
    }
    r
}

/// Keeps the local time of day of `due_at` and moves it to the first Monday
/// of next month.
pub fn first_monday_next_month(due_at: i64) -> (r: Option<i64>)
    ensures
        r matches Some(t) ==> exists|now: int| #[trigger] moved_first_monday(t as int, due_at as int, now),
{
    let now = crate::ids::now_nanos()?;
    first_monday_next_month_at(due_at, now)
}

/// Nanoseconds in an hour.
pub const HOUR_NANOS: i64 = 3_600_000_000_000;

/// The local minute, second and nanosecond of instant `t` (`chrono`'s
/// `with_timezone(&Local)` then `minute`, `second`, `nanosecond`). It
/// depends on the machine's time zone; only the ranges `chrono` documents
/// are promised (a nanosecond count of a leap second reaches 1,999,999,999).
#[verifier::external_body]
pub(crate) fn local_clock_of(t: i64) -> (r: (u32, u32, u32))
    ensures
        r.0 < 60,
        r.1 < 60,
        r.2 < 2_000_000_000,
{
    let l = chrono::DateTime::from_timestamp_nanos(t).with_timezone(&chrono::Local);
    (l.minute(), l.second(), l.nanosecond())
}

/// The start of the next whole hour after `now`, given the local minute,
/// second and nanosecond of `now`: an hour on when `now` is exactly on the
/// hour.
pub open spec fn next_hour_from(now: int, minute: int, second: int, nano: int) -> int {
    if minute == 0 && second == 0 && nano == 0 {
        now + HOUR_NANOS
    } else {
        now - (minute * 60 + second) * 1_000_000_000 - nano + HOUR_NANOS
    }
}

/// The start of the next whole local hour after `now` (an hour on when
/// `now` is exactly on the hour), from the local clock reading of `now`;
/// `None` past the range of timestamps.
pub fn next_hour_rounded_from(now: i64, minute: u32, second: u32, nano: u32) -> (r: Option<i64>)
    requires
        minute < 60,
        second < 60,
        nano < 2_000_000_000,
    ensures
        r matches Some(t) ==> t == next_hour_from(now as int, minute as int, second as int, nano as int),
        r is None ==> next_hour_from(now as int, minute as int, second as int, nano as int) > i64::MAX
            || now - ((minute * 60 + second) * 1_000_000_000 + nano) < i64::MIN,
{
    let back: i64 = ((minute as i64) * 60 + (second as i64)) * 1_000_000_000 + (nano as i64);
    if minute == 0 && second == 0 && nano == 0 {
        now.checked_add(HOUR_NANOS)
    } else {
        match now.checked_sub(back) {
            Some(t) => t.checked_add(HOUR_NANOS),
            None => None,
        }
    }
}

/// The start of the next whole local hour after `now`; an hour on when
/// `now` is exactly on the hour. Which minute, second and nanosecond the
/// local clock shows at `now` depends on the machine's time zone; whatever
/// it shows, the result is the next hour of that reading, and there is one
/// unless `now` lies within about an hour of the ends of the timestamp range.
pub fn next_hour_rounded(now: i64) -> (r: Option<i64>)
    ensures
        r matches Some(t) ==> exists|m: int, s: int, n: int|
            0 <= m < 60 && 0 <= s < 60 && 0 <= n < 2_000_000_000 && t == #[trigger] next_hour_from(now as int, m, s, n),
        i64::MIN + 3_601_000_000_000 <= now <= i64::MAX - HOUR_NANOS ==> r is Some,
{
    let (m, s, n) = local_clock_of(now);
    let r = next_hour_rounded_from(now, m, s, n);
    proof {
        if let Some(t) = r {
            assert(t == next_hour_from(now as int, m as int, s as int, n as int));
        }
        assert((m * 60 + s) * 1_000_000_000 + n < 3_601_000_000_000);
    }
    r
}

/// What `chrono` reads an RFC 3339 text as, in nanoseconds since the epoch;
/// `None` when it refuses the text or the instant is past the nanosecond
/// range.
pub uninterp spec fn rfc3339_instant(text: Seq<char>) -> Option<i64>;

/// Reads an RFC 3339 date-time (`DateTime::parse_from_rfc3339`, then
/// `timestamp_nanos_opt`); which texts are accepted is `chrono`'s, named by
/// [`rfc3339_instant`].
#[verifier::external_body]
pub(crate) fn parse_rfc3339(text: &str) -> (r: Option<i64>)
    ensures
        r == rfc3339_instant(text@),
{
    chrono::DateTime::parse_from_rfc3339(text).ok()?.timestamp_nanos_opt()
}

/// What `chrono` reads a local date-time text as under format `fmt`: its
/// date and time of day, or `None`.
pub uninterp spec fn naive_datetime_parse(text: Seq<char>, fmt: Seq<char>) -> Option<(CivilDate, TimeOfDay)>;

/// Reads a date-time without a zone (`NaiveDateTime::parse_from_str`); which
/// texts are accepted is `chrono`'s, named by [`naive_datetime_parse`].
#[verifier::external_body]
pub(crate) fn parse_naive_datetime(text: &str, fmt: &str) -> (r: Option<(CivilDate, TimeOfDay)>)
    ensures
        r == naive_datetime_parse(text@, fmt@),
{
    let n = chrono::NaiveDateTime::parse_from_str(text, fmt).ok()?;
    Some((
        CivilDate { year: n.date().year(), month: n.date().month(), day: n.date().day() },
        TimeOfDay { secs: n.time().num_seconds_from_midnight(), nanos: n.time().nanosecond() },
    ))
}

/// What `chrono` reads a date text as under format `fmt`, or `None`.
pub uninterp spec fn naive_date_parse(text: Seq<char>, fmt: Seq<char>) -> Option<CivilDate>;

/// Reads a date (`NaiveDate::parse_from_str`); which texts are accepted is
/// `chrono`'s, named by [`naive_date_parse`].
#[verifier::external_body]
pub(crate) fn parse_naive_date(text: &str, fmt: &str) -> (r: Option<CivilDate>)
    ensures
        r == naive_date_parse(text@, fmt@),
{
    let d = chrono::NaiveDate::parse_from_str(text, fmt).ok()?;
    Some(CivilDate { year: d.year(), month: d.month(), day: d.day() })
}

} // verus!
