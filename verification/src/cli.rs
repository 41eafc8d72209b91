//! Command-line arguments of the `jade` tool as plain values, and the rules
//! that read them.

use vstd::prelude::*;
use crate::output::ListFormat;
use crate::models::Error;
use crate::tasks::{DueUpdate, RepeatCronUpdate};
use crate::time_helpers::{
    CivilDate, TimeOfDay, local_instant, naive_date_parse, naive_datetime_parse, next_hour_rounded, next_monday_at,
    parse_naive_date, parse_naive_datetime, parse_rfc3339, push_to_tomorrow_at, rfc3339_instant,
};

verus! {

/// Options every command takes.
#[derive(Clone, Debug)]
pub struct Globals {
    /// Database file, when not the default one.
    pub db: Option<String>,
    /// Print JSON.
    pub json: bool,
}

/// Arguments of `tasks add`.
#[derive(Clone, Debug)]
pub struct AddArgs {
    /// Task title
    pub title: String,
    /// Optional description
    pub description: Option<String>,
    /// Due date: tomorrow, next-monday, RFC3339, YYYY-MM-DDTHH:MM, or YYYY-MM-DD
    pub due: Option<String>,
    /// Tag names
    pub tags: Vec<String>,
    /// 5-field POSIX cron schedule (e.g. "0 9 * * 1-5")
    pub repeat: Option<String>,
}

/// Arguments of `wiki roots add`.
#[derive(Clone, Debug)]
pub struct RootsAddArgs {
    /// Absolute or relative path to the wiki folder
    pub path: String,
    /// Optional display label
    pub label: Option<String>,
}

/// Arguments of `wiki search`.
#[derive(Clone, Debug)]
pub struct SearchArgs {
    /// Search query
    pub query: String,
    /// Output format: plain (default), csv, or json
    pub format: ListFormat,
}

/// The `sync` subcommands.
#[derive(Clone, Debug)]
pub enum SyncCommand {
    /// Ensure this database has a sync device id, with an optional display name
    Init { name: Option<String> },
    /// Show device id, peers, and last sync status
    Status,
    /// Pair with a remote peer (hello + store peer)
    Pair { url: String, token: String },
    /// One-shot pull/push all enabled peers
    Now,
    /// Listen for peers and periodically sync
    Serve { bind: Option<String>, token: Option<String> },
}

/// The output format of a listing: JSON when `--json` is given and the
/// format was left plain, else the format asked for.
pub open spec fn format_for(json: bool, format: ListFormat) -> ListFormat {
    if json && format == ListFormat::Plain {
        ListFormat::Json
    } else {
        format
    }
}

/// The output format of a listing (see [`format_for`]).
pub fn effective_format(json: bool, format: ListFormat) -> (r: ListFormat)
    ensures
        r == format_for(json, format),
{
    if json && format == ListFormat::Plain {
        ListFormat::Json
    } else {
        format
    }
}


/// What a due argument asks for.
#[derive(Clone, Debug)]
pub enum DueKeyword {
    Tomorrow,
    NextMonday,
    /// A date or date-time to parse, trimmed.
    Absolute(String),
}

/// The keyword a due argument spells (trimmed, ASCII case ignored):
/// `tomorrow`, `next-monday` or `next_monday`, else an absolute date.
pub open spec fn due_keyword_of(v: Seq<char>) -> Option<int> {
    let k = crate::store::nocase_key(crate::text::trim(v));
    if k == "tomorrow"@ {
        Some(0)
    } else if k == "next-monday"@ || k == "next_monday"@ {
        Some(1)
    } else {
        None
    }
}

/// Reads a due argument (see [`due_keyword_of`]).
pub fn due_keyword(value: &str) -> (r: DueKeyword)
    ensures
        due_keyword_of(value@) == Some(0int) ==> r is Tomorrow,
        due_keyword_of(value@) == Some(1int) ==> r is NextMonday,
        due_keyword_of(value@) is None ==> (r matches DueKeyword::Absolute(t) && t@ == crate::text::trim(value@)),
{
    let t = crate::text::trim_str(value);
    let k = crate::store::nocase_key_exec(t.as_str());
    if crate::order::chars_eq(&k, &crate::text::to_chars("tomorrow")) {
        DueKeyword::Tomorrow
    } else if crate::order::chars_eq(&k, &crate::text::to_chars("next-monday"))
        || crate::order::chars_eq(&k, &crate::text::to_chars("next_monday")) {
        DueKeyword::NextMonday
    } else {
        DueKeyword::Absolute(t)
    }
}

/// `s` with each space turned into `T`.
pub open spec fn spaces_to_t(s: Seq<char>) -> Seq<char> {
    s.map_values(|c: char| if c == ' ' { 'T' } else { c })
}

/// The message of a due text no form reads.
pub open spec fn invalid_due_message(v: Seq<char>) -> Seq<char> {
    "invalid due date '"@ + v
        + "'. Use tomorrow, next-monday, RFC3339, YYYY-MM-DDTHH:MM, or YYYY-MM-DD"@
}

/// No form reads `v`: not RFC 3339, not a local date-time with or without
/// seconds (a space may stand for the `T`), not a date.
pub open spec fn no_due_form(v: Seq<char>) -> bool {
    &&& rfc3339_instant(v) is None
    &&& naive_datetime_parse(spaces_to_t(v), "%Y-%m-%dT%H:%M:%S"@) is None
    &&& naive_datetime_parse(spaces_to_t(v), "%Y-%m-%dT%H:%M"@) is None
    &&& naive_date_parse(v, "%Y-%m-%d"@) is None
}

fn spaces_to_t_exec(value: &str) -> (r: String)
    ensures
        r@ == spaces_to_t(value@),
{
    let v = crate::text::to_chars(value);
    let mut out: Vec<char> = Vec::new();
    let mut i: usize = 0;
    while i < v.len()
        invariant
            i <= v@.len(),
            v@ == value@,
            out@ == spaces_to_t(v@.subrange(0, i as int)),
        decreases v@.len() - i,
    {
        proof {
            assert(spaces_to_t(v@.subrange(0, i as int + 1)) =~= spaces_to_t(v@.subrange(0, i as int)).push(
                if v@[i as int] == ' ' { 'T' } else { v@[i as int] },
            ));
        }
        out.push(if v[i] == ' ' { 'T' } else { v[i] });
        i += 1;
    }
    proof {
        assert(v@.subrange(0, v@.len() as int) =~= v@);
    }
    crate::text::from_chars(&out)
}

/// The instant at which the local clock shows `date` at `time` (shifted
/// by the zone's offset, strictly within a day), or the invalid due error
/// naming `value` when the clock skips or repeats that time.
fn local_or_error(date: CivilDate, time: TimeOfDay, value: &str) -> (r: Result<i64, Error>)
    ensures
        r matches Err(e) ==> e matches Error::InvalidDueAt(m) && m@ == value@,
        r matches Ok(t) ==> crate::time_helpers::shows_at(t as int, date, crate::time_helpers::tod_nanos(time)),
{
    match local_instant(date, time) {
        Some(t) => Ok(t),
        None => Err(Error::InvalidDueAt(crate::text::from_chars(&crate::text::to_chars(value)))),
    }
}

/// Reads an absolute due time: RFC 3339; else a local date-time
/// `YYYY-MM-DDTHH:MM[:SS]` (a space may stand for the `T`); else a date
/// `YYYY-MM-DD` at local noon. A local time that the clock skips or repeats
/// is an invalid due date; a text no form reads gets the message that
/// lists the forms.
pub fn parse_absolute_due(value: &str) -> (r: Result<i64, Error>)
    ensures
        rfc3339_instant(value@) matches Some(t) ==> r == Ok::<i64, Error>(t),
        no_due_form(value@) ==> (r matches Err(e) && e matches Error::Message(m) && m@ == invalid_due_message(value@)),
        !no_due_form(value@) && rfc3339_instant(value@) is None ==> match r {
            Ok(_) => true,
            Err(e) => e matches Error::InvalidDueAt(m) && m@ == value@,
        },
        rfc3339_instant(value@) is None ==> (naive_datetime_parse(spaces_to_t(value@), "%Y-%m-%dT%H:%M:%S"@) matches Some(
            p) ==> (r matches Ok(t) ==> crate::time_helpers::shows_at(t as int, p.0, crate::time_helpers::tod_nanos(
            p.1)))),
        rfc3339_instant(value@) is None && naive_datetime_parse(spaces_to_t(value@), "%Y-%m-%dT%H:%M:%S"@) is None ==> (
        naive_datetime_parse(spaces_to_t(value@), "%Y-%m-%dT%H:%M"@) matches Some(p) ==> (r matches Ok(t)
            ==> crate::time_helpers::shows_at(t as int, p.0, crate::time_helpers::tod_nanos(p.1)))),
        rfc3339_instant(value@) is None && naive_datetime_parse(spaces_to_t(value@), "%Y-%m-%dT%H:%M:%S"@) is None
            && naive_datetime_parse(spaces_to_t(value@), "%Y-%m-%dT%H:%M"@) is None ==> (naive_date_parse(
            value@,
            "%Y-%m-%d"@,
        ) matches Some(d) ==> (r matches Ok(t) ==> crate::time_helpers::shows_at(t as int, d, crate::time_helpers::tod_nanos(
            crate::time_helpers::noon(),
        )))),
{
    if let Some(t) = parse_rfc3339(value) {
        return Ok(t);
    }
    let normalized = spaces_to_t_exec(value);
    if let Some((d, t)) = parse_naive_datetime(normalized.as_str(), "%Y-%m-%dT%H:%M:%S") {
        return local_or_error(d, t, value);
    }
    if let Some((d, t)) = parse_naive_datetime(normalized.as_str(), "%Y-%m-%dT%H:%M") {
        return local_or_error(d, t, value);
    }
    if let Some(d) = parse_naive_date(value, "%Y-%m-%d") {
        return local_or_error(d, TimeOfDay { secs: 43200, nanos: 0 }, value);
    }
    let mut m: Vec<char> = Vec::new();
    crate::text::append_str(&mut m, "invalid due date '");
    crate::text::append_str(&mut m, value);
    crate::text::append_str(&mut m, "'. Use tomorrow, next-monday, RFC3339, YYYY-MM-DDTHH:MM, or YYYY-MM-DD");
    Err(Error::Message(crate::text::from_chars(&m)))
}

/// The error of a relative due time the clock cannot give.
pub open spec fn unresolved_due() -> Seq<char> {
    "could not resolve a local due time"@
}

fn unresolved() -> (e: Error)
    ensures
        e matches Error::InvalidDueAt(m) && m@ == unresolved_due(),
{
    Error::InvalidDueAt(crate::text::from_chars(&crate::text::to_chars("could not resolve a local due time")))
}

/// The next whole hour after `now`, moved to tomorrow (local time).
fn due_tomorrow(now: i64) -> (r: Result<i64, Error>)
    ensures
        r matches Ok(t) ==> keyword_due(t as int, now as int, false),
        r matches Err(e) ==> e matches Error::InvalidDueAt(m) && m@ == unresolved_due(),
{
    match next_hour_rounded(now) {
        Some(h) => match push_to_tomorrow_at(h, now) {
            Some(t) => {
                proof {
                    assert(next_whole_hour(now as int, h as int));
                    assert(crate::time_helpers::moved_tomorrow(t as int, h as int, now as int));
                    assert(keyword_due(t as int, now as int, false));
                }
                Ok(t)
            },
            None => Err(unresolved()),
        },
        None => Err(unresolved()),
    }
}

/// The next whole hour after `now`, moved to the coming Monday (local time).
fn due_next_monday(now: i64) -> (r: Result<i64, Error>)
    ensures
        r matches Ok(t) ==> keyword_due(t as int, now as int, true),
        r matches Err(e) ==> e matches Error::InvalidDueAt(m) && m@ == unresolved_due(),
{
    match next_hour_rounded(now) {
        Some(h) => match next_monday_at(h, now) {
            Some(t) => {
                proof {
                    assert(next_whole_hour(now as int, h as int));
                    assert(crate::time_helpers::moved_next_monday(t as int, h as int, now as int));
                    assert(keyword_due(t as int, now as int, true));
                }
                Ok(t)
            },
            None => Err(unresolved()),
        },
        None => Err(unresolved()),
    }
}

/// `h` is the start of the next whole local hour after `now`: `now` moved
/// back to the top of its hour (by some minute, second and nanosecond of
/// the local clock) and one hour on.
pub open spec fn next_whole_hour(now: int, h: int) -> bool {
    exists|m: int, s: int, n: int|
        0 <= m < 60 && 0 <= s < 60 && 0 <= n < 2_000_000_000 && h == #[trigger] crate::time_helpers::next_hour_from(
            now,
            m,
            s,
            n,
        )
}

/// `t` is the next whole local hour after `now` moved to the coming Monday
/// (`monday`) or to tomorrow, keeping its time of day.
pub open spec fn keyword_due(t: int, now: int, monday: bool) -> bool {
    exists|h: int|
        #[trigger] next_whole_hour(now, h) && (if monday {
            crate::time_helpers::moved_next_monday(t, h, now)
        } else {
            crate::time_helpers::moved_tomorrow(t, h, now)
        })
}

/// The due time of a new task from a due argument: `tomorrow` and
/// `next-monday` move the next whole hour after `now` to that day; anything
/// else is read as an absolute time (trimmed, see [`parse_absolute_due`]).
pub fn parse_due_for_create(value: &str, now: i64) -> (r: Result<i64, Error>)
    ensures
        due_keyword_of(value@) is None ==> (rfc3339_instant(crate::text::trim(value@)) matches Some(t) ==> r == Ok::<i64, Error>(t)),
        due_keyword_of(value@) is None && no_due_form(crate::text::trim(value@)) ==> (r matches Err(e)
            && e matches Error::Message(m) && m@ == invalid_due_message(crate::text::trim(value@))),
        due_keyword_of(value@) is Some ==> match r {
            Ok(_) => true,
            Err(e) => e matches Error::InvalidDueAt(m) && m@ == unresolved_due(),
        },
        due_keyword_of(value@) == Some(0int) ==> (r matches Ok(t) ==> keyword_due(t as int, now as int, false)),
        due_keyword_of(value@) == Some(1int) ==> (r matches Ok(t) ==> keyword_due(t as int, now as int, true)),
        due_keyword_of(value@) is None && rfc3339_instant(crate::text::trim(value@)) is None ==> (naive_datetime_parse(
            spaces_to_t(crate::text::trim(value@)),
            "%Y-%m-%dT%H:%M:%S"@,
        ) matches Some(p) ==> (r matches Ok(t) ==> crate::time_helpers::shows_at(t as int, p.0, crate::time_helpers::tod_nanos(
            p.1,
        )))),
        due_keyword_of(value@) is None && rfc3339_instant(crate::text::trim(value@)) is None && naive_datetime_parse(
            spaces_to_t(crate::text::trim(value@)),
            "%Y-%m-%dT%H:%M:%S"@,
        ) is None ==> (naive_datetime_parse(spaces_to_t(crate::text::trim(value@)), "%Y-%m-%dT%H:%M"@) matches Some(p)
            ==> (r matches Ok(t) ==> crate::time_helpers::shows_at(t as int, p.0, crate::time_helpers::tod_nanos(p.1)))),
        due_keyword_of(value@) is None && no_due_form(crate::text::trim(value@)) == false && rfc3339_instant(
            crate::text::trim(value@),
        ) is None && naive_datetime_parse(spaces_to_t(crate::text::trim(value@)), "%Y-%m-%dT%H:%M:%S"@) is None
            && naive_datetime_parse(spaces_to_t(crate::text::trim(value@)), "%Y-%m-%dT%H:%M"@) is None ==> (r matches Ok(t)
            ==> crate::time_helpers::shows_at(t as int, naive_date_parse(crate::text::trim(value@), "%Y-%m-%d"@)->Some_0,
            crate::time_helpers::tod_nanos(crate::time_helpers::noon()))),
{
    match due_keyword(value) {
        DueKeyword::Tomorrow => due_tomorrow(now),
        DueKeyword::NextMonday => due_next_monday(now),
        DueKeyword::Absolute(t) => parse_absolute_due(t.as_str()),
    }
}

/// The due change of a task update from a due argument: `tomorrow` and
/// `next-monday` are moves relative to the task's due time; anything else
/// is an absolute time (trimmed, see [`parse_absolute_due`]).
pub fn parse_due_for_update(value: &str) -> (r: Result<DueUpdate, Error>)
    ensures
        due_keyword_of(value@) == Some(0int) ==> r == Ok::<DueUpdate, Error>(DueUpdate::Tomorrow),
        due_keyword_of(value@) == Some(1int) ==> r == Ok::<DueUpdate, Error>(DueUpdate::NextMonday),
        due_keyword_of(value@) is None ==> (rfc3339_instant(crate::text::trim(value@)) matches Some(t)
            ==> r == Ok::<DueUpdate, Error>(DueUpdate::At(t))),
        due_keyword_of(value@) is None && no_due_form(crate::text::trim(value@)) ==> (r matches Err(e)
            && e matches Error::Message(m) && m@ == invalid_due_message(crate::text::trim(value@))),
{
    match due_keyword(value) {
        DueKeyword::Tomorrow => Ok(DueUpdate::Tomorrow),
        DueKeyword::NextMonday => Ok(DueUpdate::NextMonday),
        DueKeyword::Absolute(t) => match parse_absolute_due(t.as_str()) {
            Ok(at) => Ok(DueUpdate::At(at)),
            Err(e) => Err(e),
        },
    }
}

/// A repeat argument: `none` (ASCII case ignored) clears the schedule;
/// anything else replaces it.
pub fn repeat_update(value: &str) -> (r: RepeatCronUpdate)
    ensures
        crate::store::nocase_key(value@) == "none"@ ==> r is Clear,
        crate::store::nocase_key(value@) != "none"@ ==> (r matches RepeatCronUpdate::Replace(s) && s@ == value@),
{
    let k = crate::store::nocase_key_exec(value);
    if crate::order::chars_eq(&k, &crate::text::to_chars("none")) {
        RepeatCronUpdate::Clear
    } else {
        RepeatCronUpdate::Replace(crate::text::from_chars(&crate::text::to_chars(value)))
    }
}

} // verus!
