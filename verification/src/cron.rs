//! Cron schedules of recurring tasks.
//!
//! Schedules are 5-field POSIX cron strings (`minute hour day month weekday`),
//! read by `croner`. Occurrences are found in the local time zone, so
//! `"0 9 * * *"` means 9am local.

use vstd::prelude::*;
use crate::models::Error;
use crate::text::{trim, trim_str, to_chars, from_chars, push_all};

verus! {

#[verifier::external_type_specification]
#[verifier::external_body]
pub struct ExCron(croner::Cron);

/// What `croner` makes of a pattern: accepted, or rejected with the text of
/// its error.
pub uninterp spec fn croner_parse(pattern: Seq<char>) -> Result<(), Seq<char>>;

/// Whether a parse succeeded, with the text of its error.
pub open spec fn parse_outcome(r: Result<croner::Cron, String>) -> Result<(), Seq<char>> {
    match r {
        Ok(_) => Ok(()),
        Err(m) => Err(m@),
    }
}

/// `croner::Cron::new(pattern).parse()`: the parsed schedule, or the text of
/// croner's error. Whether a pattern is accepted, and the error text, are
/// croner's and are named by [`croner_parse`].
#[verifier::external_body]
fn croner_new_parse(pattern: &str) -> (r: Result<croner::Cron, String>)
    ensures
        parse_outcome(r) == croner_parse(pattern@),
{
    match croner::Cron::new(pattern).parse() {
        Ok(c) => Ok(c),
        Err(e) => Err(e.to_string()),
    }
}

/// The first occurrence of `cron` strictly after `after` (nanoseconds since
/// the epoch), searched in the local time zone
/// (`Cron::find_next_occurrence` on the local time, back to UTC), or the
/// text of croner's error, or `None` past the range of timestamps. It
/// depends on the machine's time zone, so nothing is promised of the value.
#[verifier::external_body]
fn croner_next_after(cron: &croner::Cron, after: i64) -> Result<Option<i64>, String> {
    let local = chrono::DateTime::from_timestamp_nanos(after).with_timezone(&chrono::Local);
    match cron.find_next_occurrence(&local, false) {
        Ok(next) => Ok(next.with_timezone(&chrono::Utc).timestamp_nanos_opt()),
        Err(e) => Err(e.to_string()),
    }
}

/// Error text for an empty schedule.
pub open spec fn empty_schedule() -> Seq<char> {
    "schedule is empty"@
}

/// What parsing a schedule gives: an error for a blank one, else croner's
/// verdict on the trimmed text.
pub open spec fn cron_check(expr: Seq<char>) -> Result<(), Seq<char>> {
    if trim(expr).len() == 0 {
        Err(empty_schedule())
    } else {
        croner_parse(trim(expr))
    }
}

/// Parses and validates a 5-field cron expression (trimmed first).
pub fn parse_cron(expr: &str) -> (r: Result<croner::Cron, Error>)
    ensures
        r is Ok <==> cron_check(expr@) is Ok,
        r matches Err(e) ==> (e matches Error::InvalidCron(m) && cron_check(expr@) == Err::<(), Seq<char>>(m@)),
{
    let trimmed = trim_str(expr);
    if trimmed.as_str().unicode_len() == 0 {
        return Err(Error::InvalidCron(from_chars(&to_chars("schedule is empty"))));
    }
    match croner_new_parse(trimmed.as_str()) {
        Ok(c) => Ok(c),
        Err(m) => Err(Error::InvalidCron(m)),
    }
}

/// The stored form of an optional schedule: `None` when absent or blank,
/// else the trimmed text, which must parse.
pub open spec fn cron_normal(expr: Option<Seq<char>>) -> Result<Option<Seq<char>>, Seq<char>> {
    match expr {
        None => Ok(None),
        Some(s) => if trim(s).len() == 0 {
            Ok(None)
        } else {
            match croner_parse(trim(s)) {
                Ok(()) => Ok(Some(trim(s))),
                Err(m) => Err(m),
            }
        },
    }
}

/// The view of an optional string.
pub open spec fn opt_view(o: Option<String>) -> Option<Seq<char>> {
    match o {
        Some(s) => Some(s@),
        None => None,
    }
}

/// The view of an optional string slice.
pub open spec fn opt_str_view(o: Option<&str>) -> Option<Seq<char>> {
    match o {
        Some(s) => Some(s@),
        None => None,
    }
}

/// Normalizes an optional schedule: `None` for absent or blank, else the
/// trimmed text once it parses.
pub fn normalize_cron(expr: Option<&str>) -> (r: Result<Option<String>, Error>)
    ensures
        r is Ok <==> cron_normal(opt_str_view(expr)) is Ok,
        r matches Ok(v) ==> cron_normal(opt_str_view(expr)) == Ok::<Option<Seq<char>>, Seq<char>>(opt_view(v)),
        r matches Err(e) ==> (e matches Error::InvalidCron(m)
            && cron_normal(opt_str_view(expr)) == Err::<Option<Seq<char>>, Seq<char>>(m@)),
{
    match expr {
        None => Ok(None),
        Some(s) => {
            let trimmed = trim_str(s);
            if trimmed.as_str().unicode_len() == 0 {
                Ok(None)
            } else {
                match croner_new_parse(trimmed.as_str()) {
                    Ok(_) => Ok(Some(trimmed)),
                    Err(m) => Err(Error::InvalidCron(m)),
                }
            }
        },
    }
}

/// Prefix of the error text when no next occurrence can be found.
pub open spec fn no_next_prefix() -> Seq<char> {
    "could not compute next occurrence: "@
}

/// The first occurrence of `cron_expr` strictly after `after`, in local
/// time, as nanoseconds since the epoch (UTC).
///
/// Callers pass `max(due_at, now)` so that overdue completions skip the
/// backlog instead of spawning missed occurrences.
pub fn next_occurrence(cron_expr: &str, after: i64) -> (r: Result<i64, Error>)
    ensures
        cron_check(cron_expr@) is Err ==> (r matches Err(e) && e matches Error::InvalidCron(m)
            && cron_check(cron_expr@) == Err::<(), Seq<char>>(m@)),
        r matches Err(e) ==> e is InvalidCron,
        cron_check(cron_expr@) is Ok ==> (r matches Err(e) ==> e matches Error::InvalidCron(m)
            && m@.len() >= no_next_prefix().len() && m@.take(no_next_prefix().len() as int) == no_next_prefix()),
{
    let cron = parse_cron(cron_expr)?;
    occurrence_result(croner_next_after(&cron, after))
}

/// What the search for the next occurrence gives: the instant found; an
/// error when the search ran past the range of instants (`None`) or failed
/// (its message), both with the prefix [`no_next_prefix`].
pub fn occurrence_result(found: Result<Option<i64>, String>) -> (r: Result<i64, Error>)
    ensures
        match found {
            Ok(Some(t)) => r == Ok::<i64, Error>(t),
            Ok(None) => r matches Err(e) && e matches Error::InvalidCron(m)
                && m@ == no_next_prefix() + "time out of range"@,
            Err(msg) => r matches Err(e) && e matches Error::InvalidCron(m) && m@ == no_next_prefix() + msg@,
        },
{
    match found {
        Ok(Some(t)) => Ok(t),
        Ok(None) => {
            let mut text: Vec<char> = Vec::new();
            crate::text::append_str(&mut text, "could not compute next occurrence: ");
            crate::text::append_str(&mut text, "time out of range");
            Err(Error::InvalidCron(from_chars(&text)))
        },
        Err(m) => {
            let mut text: Vec<char> = Vec::new();
            crate::text::append_str(&mut text, "could not compute next occurrence: ");
            crate::text::append_str(&mut text, m.as_str());
            Err(Error::InvalidCron(from_chars(&text)))
        },
    }
}

/// Normalizing a stored schedule again keeps it as it is.
pub proof fn lemma_cron_normal_idempotent(expr: Seq<char>, stored: Seq<char>)
    requires
        cron_normal(Some(expr)) == Ok::<Option<Seq<char>>, Seq<char>>(Some(stored)),
    ensures
        cron_normal(Some(stored)) == Ok::<Option<Seq<char>>, Seq<char>>(Some(stored)),
{
    crate::text::lemma_trim_idempotent(expr);
}

} // verus!
