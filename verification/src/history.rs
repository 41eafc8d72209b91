//! One-line summaries of task events for the history listing: what was
//! created or deleted, and which fields an update changed.
//!
//! A payload is read as a [`JsonValue`]: the JSON codec at the edge turns
//! the stored text into one, objects with their keys in the order the codec
//! walks them.

use vstd::prelude::*;
use crate::models::TaskEventType;
use crate::text::{append_str, from_chars, push_all, to_chars};

verus! {

/// A JSON value as the summaries read it.
#[derive(Debug)]
pub enum JsonValue {
    Null,
    Bool(bool),
    /// A number, by its JSON text.
    Number(String),
    Str(String),
    Array(Vec<JsonValue>),
    /// The entries in the order the codec walks them, and the object's
    /// compact JSON text.
    Object(Vec<(String, JsonValue)>, String),
}

/// The value of the first entry with key `key`.
pub open spec fn get(entries: Seq<(String, JsonValue)>, key: Seq<char>) -> Option<JsonValue>
    decreases entries.len(),
{
    if entries.len() == 0 {
        None
    } else if entries[0].0@ == key {
        Some(entries[0].1)
    } else {
        get(entries.drop_first(), key)
    }
}

/// The value under `key` of an object; nothing for other values.
pub open spec fn obj_get(v: JsonValue, key: Seq<char>) -> Option<JsonValue> {
    match v {
        JsonValue::Object(entries, _) => get(entries@, key),
        _ => None,
    }
}

/// The value at `a`/`b` (a JSON pointer of two keys).
pub open spec fn pointer2(v: JsonValue, a: Seq<char>, b: Seq<char>) -> Option<JsonValue> {
    match obj_get(v, a) {
        Some(inner) => obj_get(inner, b),
        None => None,
    }
}

/// An item of a list value as a summary shows it: its text when it is a
/// string, else `?`.
pub open spec fn item_text(v: JsonValue) -> Seq<char> {
    match v {
        JsonValue::Str(s) => s@,
        _ => "?"@,
    }
}

/// `parts` joined with `sep` between them.
pub open spec fn join(parts: Seq<Seq<char>>, sep: Seq<char>) -> Seq<char>
    decreases parts.len(),
{
    if parts.len() == 0 {
        Seq::empty()
    } else if parts.len() == 1 {
        parts[0]
    } else {
        join(parts.drop_last(), sep) + sep + parts.last()
    }
}

/// A field value as a summary shows it: `null` when absent or null, a
/// string as it is, a list as `[a, b]`, anything else as its JSON text.
pub open spec fn fmt_value(v: Option<JsonValue>) -> Seq<char> {
    match v {
        None => "null"@,
        Some(JsonValue::Null) => "null"@,
        Some(JsonValue::Str(s)) => s@,
        Some(JsonValue::Array(items)) => "["@ + join(items@.map_values(|x: JsonValue| item_text(x)), ", "@) + "]"@,
        Some(JsonValue::Bool(b)) => if b {
            "true"@
        } else {
            "false"@
        },
        Some(JsonValue::Number(t)) => t@,
        Some(JsonValue::Object(_, text)) => text@,
    }
}

/// The part a change entry adds to an update summary: none for the `task`
/// and `changes` keys, for a value that is no object, or for an object with
/// neither `old` nor `new`; else `field: old -> new`.
pub open spec fn change_part(field: Seq<char>, change: JsonValue) -> Option<Seq<char>> {
    if field == "task"@ || field == "changes"@ {
        None
    } else {
        match change {
            JsonValue::Object(entries, _) => if get(entries@, "old"@) is None && get(entries@, "new"@) is None {
                None
            } else {
                Some(field + ": "@ + fmt_value(get(entries@, "old"@)) + " -> "@ + fmt_value(get(entries@, "new"@)))
            },
            _ => None,
        }
    }
}

/// The parts of an update summary, in entry order.
pub open spec fn change_parts(entries: Seq<(String, JsonValue)>) -> Seq<Seq<char>>
    decreases entries.len(),
{
    if entries.len() == 0 {
        Seq::empty()
    } else {
        let rest = change_parts(entries.drop_last());
        match change_part(entries.last().0@, entries.last().1) {
            Some(p) => rest.push(p),
            None => rest,
        }
    }
}

/// The title a created event shows: its `title` when present (a string, or
/// `(untitled)` when not), else the snapshot's `task/title`.
pub open spec fn created_title(p: JsonValue) -> Seq<char> {
    let t = if obj_get(p, "title"@) is Some {
        obj_get(p, "title"@)
    } else {
        pointer2(p, "task"@, "title"@)
    };
    match t {
        Some(JsonValue::Str(s)) => s@,
        _ => "(untitled)"@,
    }
}

/// The one-line summary of an event of type `t` with payload `p`, whose
/// JSON text is `raw`:
/// - created: `created "title"`, with ` (spawned from id)` for a spawned
///   occurrence;
/// - deleted: `deleted "title"`, or `deleted` when the snapshot has no
///   title;
/// - updated: the changed fields as `field: old -> new` joined by `; `,
///   read from `changes` when it is an object, else from the payload
///   itself; `(no field changes)` when there are none; the raw text when
///   the payload is no object.
pub open spec fn summary(t: TaskEventType, p: JsonValue, raw: Seq<char>) -> Seq<char> {
    match t {
        TaskEventType::Created => match obj_get(p, "spawned_from"@) {
            Some(JsonValue::Str(from)) => "created \""@ + created_title(p) + "\" (spawned from "@ + from@ + ")"@,
            _ => "created \""@ + created_title(p) + "\""@,
        },
        TaskEventType::Deleted => match pointer2(p, "task"@, "title"@) {
            Some(JsonValue::Str(s)) => "deleted \""@ + s@ + "\""@,
            _ => "deleted"@,
        },
        TaskEventType::Updated => {
            let changes = match obj_get(p, "changes"@) {
                Some(JsonValue::Object(entries, _)) => Some(entries@),
                _ => match p {
                    JsonValue::Object(entries, _) => Some(entries@),
                    _ => None,
                },
            };
            match changes {
                None => raw,
                Some(entries) => {
                    let parts = change_parts(entries);
                    if parts.len() == 0 {
                        "(no field changes)"@
                    } else {
                        join(parts, "; "@)
                    }
                },
            }
        },
    }
}

proof fn lemma_get_step(entries: Seq<(String, JsonValue)>, key: Seq<char>, i: int)
    requires
        0 <= i < entries.len(),
    ensures
        get(entries.subrange(i, entries.len() as int), key) == if entries[i].0@ == key {
            Some(entries[i].1)
        } else {
            get(entries.subrange(i + 1, entries.len() as int), key)
        },
{
    let s = entries.subrange(i, entries.len() as int);
    assert(s.drop_first() =~= entries.subrange(i + 1, entries.len() as int));
}

/// The value of the first entry with key `key`.
fn get_entry<'a>(entries: &'a Vec<(String, JsonValue)>, key: &str) -> (r: Option<&'a JsonValue>)
    ensures
        match r {
            Some(v) => get(entries@, key@) == Some(*v),
            None => get(entries@, key@) is None,
        },
{
    let mut i: usize = 0;
    proof {
        assert(entries@.subrange(0, entries@.len() as int) =~= entries@);
    }
    while i < entries.len()
        invariant
            i <= entries@.len(),
            get(entries@, key@) == get(entries@.subrange(i as int, entries@.len() as int), key@),
        decreases entries@.len() - i,
    {
        proof {
            lemma_get_step(entries@, key@, i as int);
        }
        if crate::text::str_eq(entries[i].0.as_str(), key) {
            return Some(&entries[i].1);
        }
        i += 1;
    }
    None
}

/// The value under `key` of an object.
fn obj_get_exec<'a>(v: &'a JsonValue, key: &str) -> (r: Option<&'a JsonValue>)
    ensures
        match r {
            Some(x) => obj_get(*v, key@) == Some(*x),
            None => obj_get(*v, key@) is None,
        },
{
    match v {
        JsonValue::Object(entries, _) => get_entry(entries, key),
        _ => None,
    }
}

/// Appends `parts` joined with `sep` to `out`.
fn push_joined(out: &mut Vec<char>, parts: &Vec<Vec<char>>, sep: &str)
    ensures
        final(out)@ == old(out)@ + join(parts@.map_values(|p: Vec<char>| p@), sep@),
{
    let ghost start = out@;
    let ghost views = parts@.map_values(|p: Vec<char>| p@);
    let mut i: usize = 0;
    while i < parts.len()
        invariant
            i <= parts@.len(),
            views == parts@.map_values(|p: Vec<char>| p@),
            out@ == start + join(views.take(i as int), sep@),
        decreases parts@.len() - i,
    {
        proof {
            assert(views.take(i as int + 1).drop_last() =~= views.take(i as int));
        }
        if i > 0 {
            append_str(out, sep);
        }
        push_all(out, parts[i].as_slice());
        proof {
            assert(views.take(i as int + 1).last() == parts@[i as int]@);
            if i == 0 {
                assert(views.take(1) =~= seq![parts@[0]@]);
            }
        }
        i += 1;
    }
    proof {
        assert(views.take(parts@.len() as int) =~= views);
    }
}

/// Appends a field value as a summary shows it (see [`fmt_value`]).
fn push_value(out: &mut Vec<char>, v: Option<&JsonValue>)
    ensures
        final(out)@ == old(out)@ + fmt_value(match v {
            Some(x) => Some(*x),
            None => None,
        }),
{
    match v {
        None => append_str(out, "null"),
        Some(JsonValue::Null) => append_str(out, "null"),
        Some(JsonValue::Str(s)) => append_str(out, s.as_str()),
        Some(JsonValue::Bool(b)) => append_str(out, if *b { "true" } else { "false" }),
        Some(JsonValue::Number(t)) => append_str(out, t.as_str()),
        Some(JsonValue::Object(_, text)) => append_str(out, text.as_str()),
        Some(JsonValue::Array(items)) => {
            let mut texts: Vec<Vec<char>> = Vec::new();
            let mut i: usize = 0;
            while i < items.len()
                invariant
                    i <= items@.len(),
                    texts@.len() == i,
                    forall|k: int| 0 <= k < i ==> (#[trigger] texts@[k])@ == item_text(items@[k]),
                decreases items@.len() - i,
            {
                let t = match &items[i] {
                    JsonValue::Str(s) => to_chars(s.as_str()),
                    _ => to_chars("?"),
                };
                texts.push(t);
                i += 1;
            }
            proof {
                assert(texts@.map_values(|p: Vec<char>| p@) =~= items@.map_values(|x: JsonValue| item_text(x)));
            }
            append_str(out, "[");
            push_joined(out, &texts, ", ");
            append_str(out, "]");
        },
    }
}

/// The parts of an update summary (see [`change_parts`]).
fn collect_parts(entries: &Vec<(String, JsonValue)>) -> (r: Vec<Vec<char>>)
    ensures
        r@.map_values(|p: Vec<char>| p@) == change_parts(entries@),
{
    let mut parts: Vec<Vec<char>> = Vec::new();
    let mut i: usize = 0;
    while i < entries.len()
        invariant
            i <= entries@.len(),
            parts@.map_values(|p: Vec<char>| p@) == change_parts(entries@.take(i as int)),
        decreases entries@.len() - i,
    {
        proof {
            assert(entries@.take(i as int + 1).drop_last() =~= entries@.take(i as int));
            assert(entries@.take(i as int + 1).last() == entries@[i as int]);
        }
        let field = entries[i].0.as_str();
        let skip = crate::text::str_eq(field, "task") || crate::text::str_eq(field, "changes");
        if !skip {
            if let JsonValue::Object(inner, _) = &entries[i].1 {
                let old = get_entry(inner, "old");
                let new = get_entry(inner, "new");
                if old.is_some() || new.is_some() {
                    let mut p: Vec<char> = Vec::new();
                    append_str(&mut p, field);
                    append_str(&mut p, ": ");
                    push_value(&mut p, old);
                    append_str(&mut p, " -> ");
                    push_value(&mut p, new);
                    let ghost before = parts@;
                    parts.push(p);
                    proof {
                        assert(parts@.map_values(|q: Vec<char>| q@) =~= before.map_values(|q: Vec<char>| q@).push(p@));
                    }
                }
            }
        }
        i += 1;
    }
    proof {
        assert(entries@.take(entries@.len() as int) =~= entries@);
    }
    parts
}

/// The one-line summary of an event of type `event_type` whose payload is
/// `payload`, with JSON text `raw` (see [`summary`]).
pub fn summarize_payload(event_type: TaskEventType, payload: &JsonValue, raw: &str) -> (r: String)
    ensures
        r@ == summary(event_type, *payload, raw@),
{
    let mut out: Vec<char> = Vec::new();
    match event_type {
        TaskEventType::Created => {
            let direct = obj_get_exec(payload, "title");
            let t = match direct {
                Some(x) => Some(x),
                None => match obj_get_exec(payload, "task") {
                    Some(inner) => obj_get_exec(inner, "title"),
                    None => None,
                },
            };
            append_str(&mut out, "created \"");
            match t {
                Some(JsonValue::Str(s)) => append_str(&mut out, s.as_str()),
                _ => append_str(&mut out, "(untitled)"),
            }
            match obj_get_exec(payload, "spawned_from") {
                Some(JsonValue::Str(from)) => {
                    append_str(&mut out, "\" (spawned from ");
                    append_str(&mut out, from.as_str());
                    append_str(&mut out, ")");
                },
                _ => append_str(&mut out, "\""),
            }
        },
        TaskEventType::Deleted => {
            let t = match obj_get_exec(payload, "task") {
                Some(inner) => obj_get_exec(inner, "title"),
                None => None,
            };
            match t {
                Some(JsonValue::Str(s)) => {
                    append_str(&mut out, "deleted \"");
                    append_str(&mut out, s.as_str());
                    append_str(&mut out, "\"");
                },
                _ => append_str(&mut out, "deleted"),
            }
        },
        TaskEventType::Updated => {
            let changes = match obj_get_exec(payload, "changes") {
                Some(JsonValue::Object(entries, _)) => Some(entries),
                _ => match payload {
                    JsonValue::Object(entries, _) => Some(entries),
                    _ => None,
                },
            };
            match changes {
                None => append_str(&mut out, raw),
                Some(entries) => {
                    let parts = collect_parts(entries);
                    proof {
                        assert(parts@.map_values(|p: Vec<char>| p@).len() == parts@.len());
                    }
                    if parts.len() == 0 {
                        append_str(&mut out, "(no field changes)");
                    } else {
                        push_joined(&mut out, &parts, "; ");
                    }
                },
            }
        },
    }
    from_chars(&out)
}

} // verus!
