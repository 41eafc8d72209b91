//! The task store: tasks, tags, the task event log and the marks of applied
//! remote events, held as plain values.
//!
//! Timestamps are nanoseconds since the Unix epoch (UTC); ids are the 128-bit
//! values of UUIDs, whose numeric order is their byte order.

use vstd::prelude::*;
use crate::models::{Error, TaskStatus, TaskEventType};
use crate::order::{lex_lt, lex_lt_exec, lemma_lex_total, lemma_lex_transitive, lemma_lex_irreflexive};
use crate::text::{trim, trim_str, to_chars, from_chars};

verus! {

/// A tag. Tag names are unique when compared without regard to ASCII case.
#[derive(Clone, Debug)]
pub struct Tag {
    pub id: u128,
    pub name: String,
    pub created_at: i64,
    pub updated_at: i64,
}

/// A stored task row; its tags are the ids it links to.
#[derive(Clone, Debug)]
pub struct TaskRecord {
    pub id: u128,
    pub title: String,
    pub description: Option<String>,
    pub status: TaskStatus,
    pub due_at: i64,
    /// 5-field POSIX cron schedule; only the live occurrence of a series has one.
    pub repeat_cron: Option<String>,
    pub created_at: i64,
    pub updated_at: i64,
    pub deleted_at: Option<i64>,
    pub tag_ids: Vec<u128>,
}

/// A task as callers see it, with its tags ordered by name (ASCII case
/// ignored).
#[derive(Clone, Debug)]
pub struct Task {
    pub id: u128,
    pub title: String,
    pub description: Option<String>,
    pub status: TaskStatus,
    pub due_at: i64,
    pub repeat_cron: Option<String>,
    pub created_at: i64,
    pub updated_at: i64,
    pub deleted_at: Option<i64>,
    pub tags: Vec<Tag>,
}

/// A field of a task that an update can change.
#[derive(Clone, Copy, Debug, PartialEq, Eq, Structural)]
pub enum TaskField {
    Title,
    Description,
    Status,
    DueAt,
    RepeatCron,
    Tags,
}

/// A value of a task field as recorded in an update event.
#[derive(Clone, Debug)]
pub enum FieldValue {
    Null,
    Text(String),
    Time(i64),
    Names(Vec<String>),
}

/// One changed field: its value before and after.
#[derive(Clone, Debug)]
pub struct FieldChange {
    pub field: TaskField,
    pub old: FieldValue,
    pub new: FieldValue,
}

/// What an event carries.
#[derive(Clone, Debug)]
pub enum EventPayload {
    /// A new task, and the task it recurs from when it is a spawned occurrence.
    Created { task: Task, spawned_from: Option<u128> },
    /// The changed fields and the task after the change.
    Updated { changes: Vec<FieldChange>, task: Task },
    /// The task as it was deleted.
    Deleted { task: Task },
    /// A payload received from a peer, kept as its JSON text.
    Received { json: String },
}

/// An entry of the task event log.
#[derive(Clone, Debug)]
pub struct TaskEvent {
    /// Monotonic local sequence (replication cursor).
    pub seq: i64,
    pub id: u128,
    pub task_id: u128,
    pub event_type: TaskEventType,
    pub payload: EventPayload,
    /// Writer attribution (`local`, peer id, ...).
    pub origin: String,
    pub created_at: i64,
}

/// The last remote event applied to a task (last writer wins).
#[derive(Clone, Copy, Debug)]
pub struct AppliedMark {
    pub task_id: u128,
    pub last_event_id: u128,
    pub last_event_at: i64,
}

/// Tasks, tags, the event log and the applied marks.
#[derive(Clone, Debug)]
pub struct TaskStore {
    pub tasks: Vec<TaskRecord>,
    /// Ordered by name, ASCII case ignored.
    pub tags: Vec<Tag>,
    /// Ordered by sequence number.
    pub events: Vec<TaskEvent>,
    pub applied: Vec<AppliedMark>,
    /// This node's sync device id, once it has one: the origin of its own
    /// events.
    pub device_id: Option<String>,
}

/// A character with ASCII upper case folded to lower case.
pub open spec fn fold_char(c: char) -> char {
    if 'A' <= c && c <= 'Z' {
        ((c as u32) + 32) as char
    } else {
        c
    }
}

/// The key by which tag names compare: ASCII case folded.
pub open spec fn nocase_key(s: Seq<char>) -> Seq<char> {
    s.map_values(|c: char| fold_char(c))
}

/// Tags strictly ordered by their case-folded names (so no two share one).
pub open spec fn tags_sorted(t: Seq<Tag>) -> bool {
    forall|i: int, j: int|
        0 <= i < j < t.len() ==> lex_lt(nocase_key(#[trigger] t[i].name@), nocase_key(#[trigger] t[j].name@))
}

/// Event sequence numbers are positive and strictly increasing.
pub open spec fn seqs_increasing(e: Seq<TaskEvent>) -> bool {
    &&& forall|i: int| 0 <= i < e.len() ==> #[trigger] e[i].seq >= 1
    &&& forall|i: int, j: int| 0 <= i < j < e.len() ==> #[trigger] e[i].seq < #[trigger] e[j].seq
}

/// No two task rows share an id.
pub open spec fn task_ids_unique(t: Seq<TaskRecord>) -> bool {
    forall|i: int, j: int| 0 <= i < j < t.len() ==> #[trigger] t[i].id != #[trigger] t[j].id
}

impl TaskStore {
    /// Tags ordered by folded name, events ordered by sequence number, and
    /// task ids distinct.
    pub open spec fn wf(&self) -> bool {
        tags_sorted(self.tags@) && seqs_increasing(self.events@) && task_ids_unique(self.tasks@)
    }

    /// An empty store.
    pub fn new() -> (r: TaskStore)
        ensures
            r.wf(),
            r.tasks@.len() == 0,
            r.tags@.len() == 0,
            r.events@.len() == 0,
            r.applied@.len() == 0,
            r.device_id is None,
    {
        TaskStore { tasks: Vec::new(), tags: Vec::new(), events: Vec::new(), applied: Vec::new(), device_id: None }
    }
}

fn fold_exec(c: char) -> (r: char)
    ensures
        r == fold_char(c),
{
    if 'A' <= c && c <= 'Z' {
        let b = (c as u32) as u8;
        ((b + 32) as char)
    } else {
        c
    }
}

/// The case-folded characters of `s`.
pub fn nocase_key_exec(s: &str) -> (r: Vec<char>)
    ensures
        r@ == nocase_key(s@),
{
    let v = to_chars(s);
    let mut r: Vec<char> = Vec::new();
    let mut i: usize = 0;
    while i < v.len()
        invariant
            i <= v@.len(),
            v@ == s@,
            r@ == nocase_key(v@.subrange(0, i as int)),
        decreases v@.len() - i,
    {
        r.push(fold_exec(v[i]));
        assert(nocase_key(v@.subrange(0, i + 1)) == nocase_key(v@.subrange(0, i as int)).push(fold_char(v@[i as int])));
        i += 1;
    }
    assert(v@.subrange(0, v@.len() as int) == v@);
    r
}


/// The key a tag sorts and is found by.
pub open spec fn tag_key(t: Tag) -> Seq<char> {
    nocase_key(t.name@)
}

/// `k` is the position of a tag with folded name `key`.
pub open spec fn tag_at_key(tags: Seq<Tag>, key: Seq<char>, k: int) -> bool {
    0 <= k < tags.len() && tag_key(tags[k]) == key
}

/// Some tag has id `id`.
pub open spec fn tag_id_taken(tags: Seq<Tag>, id: u128) -> bool {
    exists|k: int| 0 <= k < tags.len() && #[trigger] tags[k].id == id
}

/// In a sorted tag list no two positions share a key.
pub proof fn lemma_tag_keys_distinct(t: Seq<Tag>, a: int, b: int)
    requires
        tags_sorted(t),
        0 <= a < t.len(),
        0 <= b < t.len(),
        a != b,
    ensures
        tag_key(t[a]) != tag_key(t[b]),
{
    if a < b {
        assert(lex_lt(tag_key(t[a]), tag_key(t[b])));
    } else {
        assert(lex_lt(tag_key(t[b]), tag_key(t[a])));
    }
    lemma_lex_irreflexive(tag_key(t[a]));
}

/// A copy of a tag.
pub fn copy_tag(t: &Tag) -> (r: Tag)
    ensures
        r == *t,
{
    Tag { id: t.id, name: t.name.clone(), created_at: t.created_at, updated_at: t.updated_at }
}

/// Message of the error for a blank tag name.
pub open spec fn tag_name_required() -> Seq<char> {
    "tag name is required"@
}

/// Finds the tag named `name` (trimmed, ASCII case ignored), or adds it with
/// id `id`, created at `now`, in its place in name order.
pub fn ensure_tag_in(tags: &mut Vec<Tag>, name: &str, id: u128, now: i64) -> (r: Result<Tag, Error>)
    requires
        tags_sorted(old(tags)@),
    ensures
        tags_sorted(final(tags)@),
        trim(name@).len() == 0 ==> final(tags)@ == old(tags)@ && (r matches Err(Error::Message(m))
            && m@ == tag_name_required()),
        forall|k: int| trim(name@).len() > 0 && tag_at_key(old(tags)@, nocase_key(trim(name@)), k)
            ==> final(tags)@ == old(tags)@ && r == Ok::<Tag, Error>(old(tags)@[k]),
        trim(name@).len() > 0 && (forall|k: int| !tag_at_key(old(tags)@, nocase_key(trim(name@)), k))
            && tag_id_taken(old(tags)@, id) ==> final(tags)@ == old(tags)@ && r matches Err(Error::Database(_)),
        trim(name@).len() > 0 && (forall|k: int| !tag_at_key(old(tags)@, nocase_key(trim(name@)), k))
            && !tag_id_taken(old(tags)@, id) ==> (r matches Ok(t) && t.id == id && t.name@ == trim(name@)
            && t.created_at == now && t.updated_at == now
            && final(tags)@.len() == old(tags)@.len() + 1
            && forall|x: Tag| #[trigger] final(tags)@.contains(x) <==> old(tags)@.contains(x) || x == t),
{
    let t = trim_str(name);
    if t.as_str().unicode_len() == 0 {
        return Err(Error::Message(from_chars(&to_chars("tag name is required"))));
    }
    let key = nocase_key_exec(t.as_str());
    let mut i: usize = 0;
    while i < tags.len()
        invariant
            i <= tags@.len(),
            tags@ == old(tags)@,
            tags_sorted(tags@),
            trim(name@).len() > 0,
            key@ == nocase_key(trim(name@)),
            forall|k: int| 0 <= k < i ==> tag_key(#[trigger] tags@[k]) != key@,
        decreases tags@.len() - i,
    {
        let ki = nocase_key_exec(tags[i].name.as_str());
        if crate::order::chars_eq(&ki, &key) {
            proof {
                assert forall|k: int| tag_at_key(old(tags)@, key@, k) implies k == i by {
                    if k < i {
                    } else if k > i {
                        assert(lex_lt(tag_key(tags@[i as int]), tag_key(tags@[k])));
                        lemma_lex_irreflexive(key@);
                    }
                }
            }
            assert(tag_at_key(old(tags)@, key@, i as int));
            return Ok(copy_tag(&tags[i]));
        }
        i += 1;
    }
    let mut j: usize = 0;
    while j < tags.len()
        invariant
            j <= tags@.len(),
            tags@ == old(tags)@,
            tags_sorted(tags@),
            trim(name@).len() > 0,
            forall|k: int| 0 <= k < tags@.len() ==> tag_key(#[trigger] tags@[k]) != nocase_key(trim(name@)),
            forall|k: int| 0 <= k < j ==> #[trigger] tags@[k].id != id,
        decreases tags@.len() - j,
    {
        if tags[j].id == id {
            return Err(Error::Database(from_chars(&to_chars("UNIQUE constraint failed: tags.id"))));
        }
        j += 1;
    }
    let mut p: usize = 0;
    while p < tags.len() && lex_lt_exec(&nocase_key_exec(tags[p].name.as_str()), &key)
        invariant
            p <= tags@.len(),
            tags@ == old(tags)@,
            tags_sorted(tags@),
            key@ == nocase_key(trim(name@)),
            forall|k: int| 0 <= k < p ==> lex_lt(tag_key(#[trigger] tags@[k]), key@),
        decreases tags@.len() - p,
    {
        p += 1;
    }
    let tag = Tag { id, name: t, created_at: now, updated_at: now };
    let ghost tg = tag;
    let ghost old_tags = tags@;
    proof {
        if p < old_tags.len() {
            assert(tag_key(old_tags[p as int]) != key@);
            lemma_lex_total(tag_key(old_tags[p as int]), key@);
        }
    }
    tags.insert(p, tag);
    proof {
        let nv = tags@;
        assert(nv == old_tags.insert(p as int, tg));
        assert(tag_key(tg) == key@);
        assert forall|a: int, b: int| 0 <= a < b < nv.len() implies lex_lt(tag_key(#[trigger] nv[a]), tag_key(#[trigger] nv[b])) by {
            if b < p {
                assert(lex_lt(tag_key(old_tags[a]), tag_key(old_tags[b])));
            } else if b == p {
            } else if a == p {
                if b - 1 > p {
                    assert(lex_lt(tag_key(old_tags[p as int]), tag_key(old_tags[b - 1])));
                    lemma_lex_transitive(key@, tag_key(old_tags[p as int]), tag_key(old_tags[b - 1]));
                }
            } else if a < p {
                if b - 1 > p {
                    assert(lex_lt(tag_key(old_tags[p as int]), tag_key(old_tags[b - 1])));
                    lemma_lex_transitive(key@, tag_key(old_tags[p as int]), tag_key(old_tags[b - 1]));
                }
                lemma_lex_transitive(tag_key(old_tags[a]), key@, tag_key(old_tags[b - 1]));
            } else {
                assert(lex_lt(tag_key(old_tags[a - 1]), tag_key(old_tags[b - 1])));
            }
        }
        assert forall|x: Tag| #[trigger] nv.contains(x) <==> old_tags.contains(x) || x == tg by {
            if old_tags.contains(x) {
                let k = choose|k: int| 0 <= k < old_tags.len() && old_tags[k] == x;
                if k < p {
                    assert(nv[k] == x);
                } else {
                    assert(nv[k + 1] == x);
                }
            }
            if x == tg {
                assert(nv[p as int] == x);
            }
            if nv.contains(x) {
                let k = choose|k: int| 0 <= k < nv.len() && nv[k] == x;
                if k < p {
                    assert(old_tags[k] == x);
                } else if k > p {
                    assert(old_tags[k - 1] == x);
                }
            }
        }
    }
    Ok(copy_tag(&tags[p]))
}


/// What a recorded field value stands for.
pub enum FieldView {
    Null,
    Text(Seq<char>),
    Time(i64),
    Names(Seq<Seq<char>>),
}

/// The view of a recorded field value.
pub open spec fn field_view(v: FieldValue) -> FieldView {
    match v {
        FieldValue::Null => FieldView::Null,
        FieldValue::Text(s) => FieldView::Text(s@),
        FieldValue::Time(t) => FieldView::Time(t),
        FieldValue::Names(n) => FieldView::Names(n@.map_values(|x: String| x@)),
    }
}

/// A change of `field` from `old` to `new`.
pub open spec fn change_is(c: FieldChange, field: TaskField, old: FieldView, new: FieldView) -> bool {
    c.field == field && field_view(c.old) == old && field_view(c.new) == new
}

/// An optional text as a recorded value: null when absent.
pub open spec fn opt_text(o: Option<Seq<char>>) -> FieldView {
    match o {
        Some(s) => FieldView::Text(s),
        None => FieldView::Null,
    }
}


/// What a recorded change stands for.
pub struct ChangeView {
    pub field: TaskField,
    pub old: FieldView,
    pub new: FieldView,
}

/// The view of a recorded change.
pub open spec fn change_view(c: FieldChange) -> ChangeView {
    ChangeView { field: c.field, old: field_view(c.old), new: field_view(c.new) }
}

/// The views of recorded changes.
pub open spec fn change_views(c: Seq<FieldChange>) -> Seq<ChangeView> {
    c.map_values(|x: FieldChange| change_view(x))
}


proof fn lemma_tag_chain(t: Seq<Tag>, i: int, j: int)
    requires
        forall|k: int| 0 <= k < t.len() - 1 ==> lex_lt(tag_key(#[trigger] t[k]), tag_key(t[k + 1])),
        0 <= i < j < t.len(),
    ensures
        lex_lt(tag_key(t[i]), tag_key(t[j])),
    decreases j - i,
{
    if j > i + 1 {
        lemma_tag_chain(t, i, j - 1);
        assert(lex_lt(tag_key(t[j - 1]), tag_key(t[j])));
        lemma_lex_transitive(tag_key(t[i]), tag_key(t[j - 1]), tag_key(t[j]));
    }
}

proof fn lemma_tags_sorted_from_adjacent(t: Seq<Tag>)
    requires
        forall|k: int| 0 <= k < t.len() - 1 ==> lex_lt(tag_key(#[trigger] t[k]), tag_key(t[k + 1])),
    ensures
        tags_sorted(t),
{
    assert forall|i: int, j: int| 0 <= i < j < t.len() implies lex_lt(tag_key(#[trigger] t[i]), tag_key(#[trigger] t[j])) by {
        lemma_tag_chain(t, i, j);
    }
}

proof fn lemma_seq_chain(ev: Seq<TaskEvent>, i: int, j: int)
    requires
        forall|q: int| 0 <= q < ev.len() && q + 1 < ev.len() ==> #[trigger] ev[q].seq < ev[q + 1].seq,
        0 <= i < j < ev.len(),
    ensures
        ev[i].seq < ev[j].seq,
    decreases j - i,
{
    if j > i + 1 {
        lemma_seq_chain(ev, i, j - 1);
        assert(ev[j - 1].seq < ev[j].seq);
    }
}

impl TaskStore {
    /// Whether the store is well formed: tags ordered by folded name,
    /// events ordered by sequence number, task ids distinct.
    pub fn is_well_formed(&self) -> (r: bool)
        ensures
            r == self.wf(),
    {
        let mut k: usize = 0;
        while k < self.tags.len() && self.tags.len() - k > 1
            invariant
                k <= self.tags@.len(),
                forall|j: int| 0 <= j < k && j < self.tags@.len() - 1 ==> lex_lt(tag_key(#[trigger] self.tags@[j]), tag_key(self.tags@[j + 1])),
            decreases self.tags@.len() - k,
        {
            let a = nocase_key_exec(self.tags[k].name.as_str());
            let b = nocase_key_exec(self.tags[k + 1].name.as_str());
            if !lex_lt_exec(&a, &b) {
                proof {
                    assert(!tags_sorted(self.tags@)) by {
                        if tags_sorted(self.tags@) {
                            assert(lex_lt(tag_key(self.tags@[k as int]), tag_key(self.tags@[k + 1])));
                        }
                    }
                }
                return false;
            }
            k += 1;
        }
        proof {
            lemma_tags_sorted_from_adjacent(self.tags@);
        }
        let mut e: usize = 0;
        while e < self.events.len()
            invariant
                e <= self.events@.len(),
                forall|j: int| 0 <= j < e ==> #[trigger] self.events@[j].seq >= 1,
                forall|j: int| 0 <= j < e && j + 1 < self.events@.len() ==> #[trigger] self.events@[j].seq < self.events@[j + 1].seq,
            decreases self.events@.len() - e,
        {
            if self.events[e].seq < 1 {
                return false;
            }
            if e + 1 < self.events.len() && self.events[e].seq >= self.events[e + 1].seq {
                proof {
                    assert(!seqs_increasing(self.events@)) by {
                        if seqs_increasing(self.events@) {
                            assert(self.events@[e as int].seq < self.events@[e + 1].seq);
                        }
                    }
                }
                return false;
            }
            e += 1;
        }
        proof {
            let ev = self.events@;
            assert forall|i: int, j: int| 0 <= i < j < ev.len() implies #[trigger] ev[i].seq < #[trigger] ev[j].seq by {
                lemma_seq_chain(ev, i, j);
            }
        }
        let mut a: usize = 0;
        while a < self.tasks.len()
            invariant
                a <= self.tasks@.len(),
                forall|i: int, j: int| 0 <= i < a && i < j < self.tasks@.len() ==> #[trigger] self.tasks@[i].id
                    != #[trigger] self.tasks@[j].id,
            decreases self.tasks@.len() - a,
        {
            let mut b: usize = a + 1;
            while b < self.tasks.len()
                invariant
                    a < self.tasks@.len(),
                    a < b <= self.tasks@.len(),
                    forall|i: int, j: int| 0 <= i < a && i < j < self.tasks@.len() ==> #[trigger] self.tasks@[i].id
                        != #[trigger] self.tasks@[j].id,
                    forall|j: int| a < j < b ==> self.tasks@[a as int].id != #[trigger] self.tasks@[j].id,
                decreases self.tasks@.len() - b,
            {
                if self.tasks[a].id == self.tasks[b].id {
                    proof {
                        assert(!task_ids_unique(self.tasks@)) by {
                            assert(self.tasks@[a as int].id == self.tasks@[b as int].id);
                        }
                    }
                    return false;
                }
                b += 1;
            }
            a += 1;
        }
        true
    }
}

/// A tag is found again under any ASCII case of its name: in a sorted tag
/// list, the tag at the folded key of a name that folds like the tag's own
/// name is that tag.
pub proof fn lemma_tag_found_in_any_case(tags: Seq<Tag>, t: Tag, name: Seq<char>)
    requires
        tags_sorted(tags),
        tags.contains(t),
        nocase_key(t.name@) == nocase_key(name),
    ensures
        exists|k: int| #[trigger] tag_at_key(tags, nocase_key(name), k) && tags[k] == t,
        forall|k: int| #[trigger] tag_at_key(tags, nocase_key(name), k) ==> tags[k] == t,
{
    let i = choose|i: int| 0 <= i < tags.len() && tags[i] == t;
    assert(tag_at_key(tags, nocase_key(name), i));
    assert forall|k: int| #[trigger] tag_at_key(tags, nocase_key(name), k) implies tags[k] == t by {
        if k != i {
            lemma_tag_keys_distinct(tags, k, i);
        }
    }
}

} // verus!
