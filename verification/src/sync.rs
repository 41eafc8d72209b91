//! Applying task events received from a peer: idempotent by event id, last
//! writer wins on task snapshots.

use vstd::prelude::*;
use crate::models::{Error, TaskEventType};
use crate::store::{
    Tag, TaskRecord, TaskStore, TaskEvent, AppliedMark, EventPayload, tags_sorted, tag_key, tag_at_key,
    tag_id_taken, copy_tag, ensure_tag_in, nocase_key,
};
use crate::events::{next_seq, event_id_taken, event_slot};
use crate::store::Task;
use crate::tasks::{task_id_taken, task_id_used, linked_key};
use crate::tags::{ids_contain, copy_opt, find_tag};
use crate::text::{trim, trim_str, to_chars, from_chars};

verus! {

/// Wire protocol version of peer sync.
pub const PROTOCOL_VERSION: u32 = 1;

/// What the `task` field of a received payload holds.
#[derive(Clone, Debug)]
pub enum PayloadTask {
    /// The payload has no `task` field.
    Missing,
    /// The field does not read as a task; the decoder's message.
    Invalid(String),
    /// The task snapshot it carries.
    Valid(Task),
}

/// A task event as peers exchange it. The sender's `seq` is only a pull
/// cursor for that peer.
#[derive(Clone, Debug)]
pub struct SyncEventEnvelope {
    pub id: u128,
    pub task_id: u128,
    pub event_type: TaskEventType,
    /// The payload as JSON text, stored as received.
    pub payload: String,
    /// The `task` field of the payload.
    pub task: PayloadTask,
    pub origin: String,
    pub created_at: i64,
    pub seq: i64,
}

/// Counts of a batch: events taken in, and events already known.
#[derive(Clone, Copy, Debug)]
pub struct ApplyStats {
    pub accepted: u32,
    pub skipped: u32,
}

/// What a push answers: the counts of the batch.
#[derive(Clone, Copy, Debug)]
pub struct SyncPushResponse {
    pub accepted: u32,
    pub skipped: u32,
}

/// Whether `(at, id)` is later than `(prev_at, prev_id)`: a later time, or
/// the same time and a greater id.
pub open spec fn later(at: i64, id: u128, prev_at: i64, prev_id: u128) -> bool {
    at > prev_at || (at == prev_at && id > prev_id)
}

/// `k` is the first mark of task `task_id`.
pub open spec fn first_mark(applied: Seq<AppliedMark>, task_id: u128, k: int) -> bool {
    &&& 0 <= k < applied.len()
    &&& applied[k].task_id == task_id
    &&& forall|j: int| 0 <= j < k ==> #[trigger] applied[j].task_id != task_id
}

/// Some mark is for task `task_id`.
pub open spec fn has_mark(applied: Seq<AppliedMark>, task_id: u128) -> bool {
    exists|k: int| 0 <= k < applied.len() && #[trigger] applied[k].task_id == task_id
}

/// Last writer wins: an event for a task replaces its state when no event
/// was applied to it yet, or when it is later than the last one applied.
pub open spec fn lww_applies(applied: Seq<AppliedMark>, task_id: u128, id: u128, at: i64) -> bool {
    forall|k: int| #[trigger] first_mark(applied, task_id, k) ==> later(at, id, applied[k].last_event_at,
        applied[k].last_event_id)
}

fn find_mark(applied: &Vec<AppliedMark>, task_id: u128) -> (r: Option<usize>)
    ensures
        r matches Some(k) ==> first_mark(applied@, task_id, k as int),
        r is None ==> !has_mark(applied@, task_id),
{
    let mut k: usize = 0;
    while k < applied.len()
        invariant
            k <= applied@.len(),
            forall|j: int| 0 <= j < k ==> #[trigger] applied@[j].task_id != task_id,
        decreases applied@.len() - k,
    {
        if applied[k].task_id == task_id {
            return Some(k);
        }
        k += 1;
    }
    None
}

proof fn lemma_first_mark_unique(applied: Seq<AppliedMark>, task_id: u128, a: int, b: int)
    requires
        first_mark(applied, task_id, a),
        first_mark(applied, task_id, b),
    ensures
        a == b,
{
    if a < b {
        assert(applied[a].task_id == task_id);
    } else if b < a {
        assert(applied[b].task_id == task_id);
    }
}

/// Whether an event replaces the state of its task (last writer wins).
pub fn should_apply_lww(applied: &Vec<AppliedMark>, task_id: u128, event_id: u128, event_at: i64) -> (r: bool)
    ensures
        r == lww_applies(applied@, task_id, event_id, event_at),
{
    match find_mark(applied, task_id) {
        None => true,
        Some(k) => {
            proof {
                assert forall|j: int| #[trigger] first_mark(applied@, task_id, j) implies j == k by {
                    lemma_first_mark_unique(applied@, task_id, k as int, j);
                }
            }
            let m = applied[k];
            event_at > m.last_event_at || (event_at == m.last_event_at && event_id > m.last_event_id)
        },
    }
}

/// The mark of the winner between marks `a` and `b` of one task: the later.
pub open spec fn winner(a: AppliedMark, b: AppliedMark) -> AppliedMark {
    if later(b.last_event_at, b.last_event_id, a.last_event_at, a.last_event_id) {
        b
    } else {
        a
    }
}

/// Last writer wins does not depend on arrival order: of two distinct
/// events for one task, the one that stays applied is the later, whichever
/// came first.
pub proof fn lemma_lww_order_independent(m: AppliedMark, a: AppliedMark, b: AppliedMark)
    requires
        a.task_id == m.task_id,
        b.task_id == m.task_id,
        a.last_event_id != b.last_event_id || a.last_event_at != b.last_event_at,
    ensures
        winner(winner(m, a), b) == winner(winner(m, b), a),
{
}

/// Applying an event that has already won again changes nothing.
pub proof fn lemma_lww_idempotent(m: AppliedMark, a: AppliedMark)
    requires
        a.task_id == m.task_id,
    ensures
        winner(winner(m, a), a) == winner(m, a),
{
}

/// The mark a received event leaves when it wins.
pub open spec fn mark_for(ev: SyncEventEnvelope) -> AppliedMark {
    AppliedMark { task_id: ev.task_id, last_event_id: ev.id, last_event_at: ev.created_at }
}

/// The marks after taking in `ev`: its task's first mark becomes the
/// winner of that mark and `ev`'s, or `ev`'s mark is added when the task
/// had none.
pub open spec fn marks_after(applied: Seq<AppliedMark>, ev: SyncEventEnvelope) -> Seq<AppliedMark> {
    if has_mark(applied, ev.task_id) {
        let k = choose|k: int| first_mark(applied, ev.task_id, k);
        applied.update(k, winner(applied[k], mark_for(ev)))
    } else {
        applied.push(mark_for(ev))
    }
}

proof fn lemma_has_mark_first(applied: Seq<AppliedMark>, task_id: u128, k: int)
    requires
        0 <= k < applied.len(),
        applied[k].task_id == task_id,
    ensures
        exists|i: int| first_mark(applied, task_id, i),
    decreases k,
{
    if forall|j: int| 0 <= j < k ==> #[trigger] applied[j].task_id != task_id {
        assert(first_mark(applied, task_id, k));
    } else {
        let j = choose|j: int| 0 <= j < k && #[trigger] applied[j].task_id == task_id;
        lemma_has_mark_first(applied, task_id, j);
    }
}

/// Taking in a received event leaves the marks [`marks_after`] gives.
proof fn lemma_marks_after(old: TaskStore, ev: SyncEventEnvelope, now: i64, new: TaskStore)
    requires
        event_applied(old, ev, now, new, ApplyOutcome::Accepted),
    ensures
        new.applied@ == marks_after(old.applied@, ev),
{
    let t = ev.task_id;
    if has_mark(old.applied@, t) {
        let w = choose|w: int| 0 <= w < old.applied@.len() && #[trigger] old.applied@[w].task_id == t;
        lemma_has_mark_first(old.applied@, t, w);
        let k = choose|k: int| first_mark(old.applied@, t, k);
        assert forall|j: int| #[trigger] first_mark(old.applied@, t, j) implies j == k by {
            lemma_first_mark_unique(old.applied@, t, k, j);
        }
    }
}

/// Last writer wins does not depend on arrival order: two new received
/// events of one task, taken in either order, leave the same marks.
pub proof fn lemma_two_events_commute(
    s0: TaskStore,
    a: SyncEventEnvelope,
    b: SyncEventEnvelope,
    now: i64,
    s1: TaskStore,
    s2: TaskStore,
    t1: TaskStore,
    t2: TaskStore,
    o1: ApplyOutcome,
    o2: ApplyOutcome,
    p1: ApplyOutcome,
    p2: ApplyOutcome,
)
    requires
        event_applied(s0, a, now, s1, o1),
        event_applied(s1, b, now, s2, o2),
        event_applied(s0, b, now, t1, p1),
        event_applied(t1, a, now, t2, p2),
        a.task_id == b.task_id,
        a.id != b.id,
        !event_id_taken(s0.events@, a.id),
        !event_id_taken(s0.events@, b.id),
    ensures
        s2.applied@ == t2.applied@,
{
    crate::events::lemma_log_push(s0.events@, s1.events@);
    crate::events::lemma_log_push(s0.events@, t1.events@);
    lemma_marks_after(s0, a, now, s1);
    lemma_marks_after(s1, b, now, s2);
    lemma_marks_after(s0, b, now, t1);
    lemma_marks_after(t1, a, now, t2);
    let t = a.task_id;
    let ap = s0.applied@;
    let ma = mark_for(a);
    let mb = mark_for(b);
    if has_mark(ap, t) {
        let k = choose|k: int| first_mark(ap, t, k);
        let w = choose|w: int| 0 <= w < ap.len() && #[trigger] ap[w].task_id == t;
        lemma_has_mark_first(ap, t, w);
        let s1a = ap.update(k, winner(ap[k], ma));
        let t1a = ap.update(k, winner(ap[k], mb));
        assert(first_mark(s1a, t, k));
        assert(first_mark(t1a, t, k));
        assert(has_mark(s1a, t) && s1a[k].task_id == t);
        assert(has_mark(t1a, t) && t1a[k].task_id == t);
        assert forall|j: int| #[trigger] first_mark(s1a, t, j) implies j == k by {
            lemma_first_mark_unique(s1a, t, k, j);
        }
        assert forall|j: int| #[trigger] first_mark(t1a, t, j) implies j == k by {
            lemma_first_mark_unique(t1a, t, k, j);
        }
        lemma_lww_order_independent(ap[k], ma, mb);
        assert(s2.applied@ =~= t2.applied@);
    } else {
        let n = ap.len() as int;
        let s1a = ap.push(ma);
        let t1a = ap.push(mb);
        assert(first_mark(s1a, t, n));
        assert(first_mark(t1a, t, n));
        assert(has_mark(s1a, t) && s1a[n].task_id == t);
        assert(has_mark(t1a, t) && t1a[n].task_id == t);
        assert forall|j: int| #[trigger] first_mark(s1a, t, j) implies j == n by {
            lemma_first_mark_unique(s1a, t, n, j);
        }
        assert forall|j: int| #[trigger] first_mark(t1a, t, j) implies j == n by {
            lemma_first_mark_unique(t1a, t, n, j);
        }
        assert(s2.applied@ =~= t2.applied@);
    }
}

/// Records that event `id` at `at` is the last applied to task `task_id`.
fn set_mark(applied: &mut Vec<AppliedMark>, task_id: u128, id: u128, at: i64)
    ensures
        forall|k: int| #[trigger] first_mark(old(applied)@, task_id, k) ==> final(applied)@ == old(applied)@.update(k,
            AppliedMark { task_id, last_event_id: id, last_event_at: at }),
        !has_mark(old(applied)@, task_id) ==> final(applied)@ == old(applied)@.push(
            AppliedMark { task_id, last_event_id: id, last_event_at: at }),
{
    match find_mark(applied, task_id) {
        Some(k) => {
            proof {
                assert forall|j: int| #[trigger] first_mark(old(applied)@, task_id, j) implies j == k by {
                    lemma_first_mark_unique(old(applied)@, task_id, k as int, j);
                }
            }
            applied.set(k, AppliedMark { task_id, last_event_id: id, last_event_at: at });
        },
        None => {
            applied.push(AppliedMark { task_id, last_event_id: id, last_event_at: at });
        },
    }
}

/// Message of the error for a blank tag name in a received snapshot.
pub open spec fn empty_sync_tag() -> Seq<char> {
    "empty tag name in sync payload"@
}

/// Finds the tag named `name` (trimmed, ASCII case ignored), or adds it with
/// id `preferred` when that id is free, else with `fallback`; gives its id.
pub fn ensure_tag_named(tags: &mut Vec<Tag>, name: &str, preferred: u128, fallback: u128, now: i64) -> (r: Result<u128, Error>)
    requires
        tags_sorted(old(tags)@),
    ensures
        tags_sorted(final(tags)@),
        r is Err ==> final(tags)@ == old(tags)@,
        trim(name@).len() == 0 ==> (r matches Err(e) && e matches Error::Message(m) && m@ == empty_sync_tag()),
        forall|k: int| trim(name@).len() > 0 && tag_at_key(old(tags)@, nocase_key(trim(name@)), k)
            ==> final(tags)@ == old(tags)@ && r == Ok::<u128, Error>(old(tags)@[k].id),
        r matches Ok(id) ==> exists|x: Tag| #[trigger] final(tags)@.contains(x) && x.id == id
            && tag_key(x) == nocase_key(trim(name@)),
        r matches Err(e) ==> (e matches Error::Message(m) && m@ == empty_sync_tag()) || e is Database,
        forall|x: Tag| #[trigger] old(tags)@.contains(x) ==> final(tags)@.contains(x),
        forall|x: Tag| #[trigger] final(tags)@.contains(x) && !old(tags)@.contains(x) ==> x.name@ == trim(name@)
            && x.created_at == now && x.updated_at == now
            && x.id == (if tag_id_taken(old(tags)@, preferred) { fallback } else { preferred }),
        trim(name@).len() > 0 && !(tag_id_taken(old(tags)@, preferred) && tag_id_taken(old(tags)@, fallback)) ==> r is Ok,
{
    let t = trim_str(name);
    if t.as_str().unicode_len() == 0 {
        return Err(Error::Message(from_chars(&to_chars("empty tag name in sync payload"))));
    }
    match find_tag(tags, name) {
        Some(k) => {
            proof {
                assert forall|j: int| tag_at_key(old(tags)@, nocase_key(trim(name@)), j) implies j == k by {
                    if j != k {
                        crate::store::lemma_tag_keys_distinct(tags@, j, k as int);
                    }
                }
                assert(tags@.contains(tags@[k as int]));
            }
            Ok(tags[k].id)
        },
        None => {
            let mut taken = false;
            let mut j: usize = 0;
            while j < tags.len()
                invariant
                    j <= tags@.len(),
                    taken == (exists|m: int| 0 <= m < j && #[trigger] tags@[m].id == preferred),
                decreases tags@.len() - j,
            {
                if tags[j].id == preferred {
                    taken = true;
                }
                j += 1;
            }
            let id = if taken { fallback } else { preferred };
            let tag = ensure_tag_in(tags, name, id, now)?;
            proof {
                assert(tags@.contains(tag));
                assert(tag_key(tag) == nocase_key(trim(name@)));
            }
            Ok(tag.id)
        },
    }
}

/// A snapshot's tags can all be linked: no name is blank, and the fallback
/// ids are free in `tags`, distinct, and none is a snapshot tag's own id.
pub open spec fn snapshot_tags_ok(tags: Seq<Tag>, snapshot: Seq<Tag>, fallback: Seq<u128>) -> bool {
    &&& forall|k: int| 0 <= k < snapshot.len() ==> trim(#[trigger] snapshot[k].name@).len() > 0
    &&& forall|k: int| 0 <= k < fallback.len() ==> !tag_id_taken(tags, #[trigger] fallback[k])
    &&& forall|k: int, j: int| 0 <= k < fallback.len() && 0 <= j < snapshot.len() ==> #[trigger] fallback[k]
        != #[trigger] snapshot[j].id
    &&& forall|k: int, j: int| 0 <= k < j < fallback.len() ==> #[trigger] fallback[k] != #[trigger] fallback[j]
}

/// Links of the tags of a snapshot, each resolved by name (preferring the
/// snapshot's tag id for a new tag, else the fallback at its position).
pub fn link_snapshot_tags(
    tags: &mut Vec<Tag>,
    snapshot: &Vec<Tag>,
    fallback: &Vec<u128>,
    now: i64,
) -> (r: Result<Vec<u128>, Error>)
    requires
        tags_sorted(old(tags)@),
        fallback@.len() == snapshot@.len(),
    ensures
        tags_sorted(final(tags)@),
        forall|x: Tag| #[trigger] old(tags)@.contains(x) ==> final(tags)@.contains(x),
        r matches Ok(links) ==> forall|k: int| 0 <= k < snapshot@.len() ==> linked_key(final(tags)@, links@,
            nocase_key(trim(#[trigger] snapshot@[k].name@))),
        r matches Ok(links) ==> links_from_snapshot(final(tags)@, links@, snapshot@),
        r matches Err(e) ==> (e matches Error::Message(m) && m@ == empty_sync_tag()) || e is Database,
        snapshot_tags_ok(old(tags)@, snapshot@, fallback@) ==> r is Ok,
{
    let mut links: Vec<u128> = Vec::new();
    let mut i: usize = 0;
    while i < snapshot.len()
        invariant
            i <= snapshot@.len(),
            fallback@.len() == snapshot@.len(),
            tags_sorted(tags@),
            forall|x: Tag| #[trigger] old(tags)@.contains(x) ==> tags@.contains(x),
            forall|k: int| 0 <= k < i ==> linked_key(tags@, links@, nocase_key(trim(#[trigger] snapshot@[k].name@))),
            links_from_snapshot(tags@, links@, snapshot@),
            snapshot_tags_ok(old(tags)@, snapshot@, fallback@) ==> forall|m: int| i <= m < fallback@.len()
                ==> !tag_id_taken(tags@, #[trigger] fallback@[m]),
        decreases snapshot@.len() - i,
    {
        let ghost before = tags@;
        let ghost links0 = links@;
        proof {
            if snapshot_tags_ok(old(tags)@, snapshot@, fallback@) {
                assert(!tag_id_taken(tags@, fallback@[i as int]));
                assert(trim(snapshot@[i as int].name@).len() > 0);
            }
        }
        let id = ensure_tag_named(tags, snapshot[i].name.as_str(), snapshot[i].id, fallback[i], now)?;
        if !ids_contain(&links, id) {
            links.push(id);
        }
        proof {
            assert forall|k: int| 0 <= k < i + 1 implies linked_key(tags@, links@, nocase_key(trim(#[trigger] snapshot@[k].name@))) by {
                if k < i {
                    let x = choose|x: Tag| #[trigger] before.contains(x) && tag_key(x) == nocase_key(trim(snapshot@[k].name@))
                        && links0.contains(x.id);
                    let m = choose|m: int| 0 <= m < links0.len() && links0[m] == x.id;
                    assert(links@[m] == x.id);
                    assert(tags@.contains(x));
                } else {
                    let x = choose|x: Tag| #[trigger] tags@.contains(x) && x.id == id
                        && tag_key(x) == nocase_key(trim(snapshot@[i as int].name@));
                    if !links0.contains(id) {
                        assert(links@[links0.len() as int] == id);
                    }
                }
            }
            assert forall|m: int| 0 <= m < links@.len() implies snapshot_link(tags@, snapshot@, #[trigger] links@[m]) by {
                if m < links0.len() {
                    assert(links@[m] == links0[m]);
                    assert(snapshot_link(before, snapshot@, links0[m]));
                    let (x, k) = choose|x: Tag, k: int|
                        #![trigger before.contains(x), snapshot@[k]]
                        before.contains(x) && 0 <= k < snapshot@.len() && x.id == links0[m] && tag_key(x) == nocase_key(
                            trim(snapshot@[k].name@),
                        );
                    assert(tags@.contains(x));
                    assert(snapshot@[k] == snapshot@[k]);
                } else {
                    assert(links@[m] == id);
                    let x = choose|x: Tag| #[trigger] tags@.contains(x) && x.id == id
                        && tag_key(x) == nocase_key(trim(snapshot@[i as int].name@));
                    assert(snapshot@[i as int] == snapshot@[i as int]);
                }
            }
            if snapshot_tags_ok(old(tags)@, snapshot@, fallback@) {
                assert forall|m: int| i + 1 <= m < fallback@.len() implies !tag_id_taken(tags@, #[trigger] fallback@[m]) by {
                    assert(!tag_id_taken(before, fallback@[m]));
                    assert(fallback@[m] != snapshot@[i as int].id);
                    assert(fallback@[m] != fallback@[i as int]);
                    if tag_id_taken(tags@, fallback@[m]) {
                        let q = choose|q: int| 0 <= q < tags@.len() && #[trigger] tags@[q].id == fallback@[m];
                        assert(tags@.contains(tags@[q]));
                        if before.contains(tags@[q]) {
                            let p = choose|p: int| 0 <= p < before.len() && before[p] == tags@[q];
                            assert(before[p].id == fallback@[m]);
                        }
                    }
                }
            }
        }
        i += 1;
    }
    Ok(links)
}

/// What happened to one received event.
#[derive(Clone, Copy, Debug, PartialEq, Eq, Structural)]
pub enum ApplyOutcome {
    /// Taken in.
    Accepted,
    /// Already known by its id.
    Skipped,
}

/// Message of the error for a received payload without a task.
pub open spec fn missing_task() -> Seq<char> {
    "sync event missing payload.task"@
}

/// Message of the error for a received snapshot of another task.
pub open spec fn mismatched_task() -> Seq<char> {
    "payload.task.id does not match event task_id"@
}

/// Prefix of the error for a received task that does not decode.
pub open spec fn invalid_task_prefix() -> Seq<char> {
    "invalid payload.task: "@
}

/// `k` is the first row with id `id`, live or deleted.
pub open spec fn first_row(tasks: Seq<TaskRecord>, id: u128, k: int) -> bool {
    &&& 0 <= k < tasks.len()
    &&& tasks[k].id == id
    &&& forall|j: int| 0 <= j < k ==> #[trigger] tasks[j].id != id
}

fn find_row(tasks: &Vec<TaskRecord>, id: u128) -> (r: Option<usize>)
    ensures
        r matches Some(k) ==> first_row(tasks@, id, k as int),
        r is None ==> !task_id_taken(tasks@, id),
{
    let mut k: usize = 0;
    while k < tasks.len()
        invariant
            k <= tasks@.len(),
            forall|j: int| 0 <= j < k ==> #[trigger] tasks@[j].id != id,
        decreases tasks@.len() - k,
    {
        if tasks[k].id == id {
            return Some(k);
        }
        k += 1;
    }
    None
}

/// Row `rec` holds snapshot `t` (deleted at `now` when a `deleted` event
/// carried no deletion time), linking `links`.
pub open spec fn holds_snapshot(rec: TaskRecord, t: Task, deleted_event: bool, now: i64) -> bool {
    let tombstone = deleted_event && t.deleted_at is None;
    &&& rec.id == t.id
    &&& rec.title == t.title
    &&& rec.description == t.description
    &&& rec.status == t.status
    &&& rec.due_at == t.due_at
    &&& rec.repeat_cron == t.repeat_cron
    &&& rec.created_at == t.created_at
    &&& rec.updated_at == (if tombstone { now } else { t.updated_at })
    &&& rec.deleted_at == (if tombstone { Some(now) } else { t.deleted_at })
}

/// Each tag of a snapshot is linked by `links`, found by its trimmed name
/// (ASCII case ignored) in `tags`.
pub open spec fn snapshot_tags_linked(tags: Seq<Tag>, links: Seq<u128>, snapshot: Seq<Tag>) -> bool {
    forall|k: int| 0 <= k < snapshot.len() ==> linked_key(tags, links, nocase_key(trim(#[trigger] snapshot[k].name@)))
}

/// Link `l` is the id of a tag of `tags` found by the trimmed name (ASCII
/// case ignored) of some tag of `snapshot`.
pub open spec fn snapshot_link(tags: Seq<Tag>, snapshot: Seq<Tag>, l: u128) -> bool {
    exists|x: Tag, k: int|
        #![trigger tags.contains(x), snapshot[k]]
        tags.contains(x) && 0 <= k < snapshot.len() && x.id == l && tag_key(x) == nocase_key(trim(snapshot[k].name@))
}

/// Every link names a tag of the snapshot: none is left over from before.
pub open spec fn links_from_snapshot(tags: Seq<Tag>, links: Seq<u128>, snapshot: Seq<Tag>) -> bool {
    forall|m: int| 0 <= m < links.len() ==> snapshot_link(tags, snapshot, #[trigger] links[m])
}

/// Applying received event `ev` at `now` took `old` to `new` with outcome
/// `o`: a known event id is skipped and changes nothing; otherwise the event
/// is logged as received with the next sequence number; when it wins (last
/// writer wins) or its task is not known yet, the first row of its task
/// holds its snapshot (deleted at `now` for a `deleted` event without a
/// deletion time), else tasks and tags stay; a winning event becomes its
/// task's mark.
pub open spec fn event_applied(old: TaskStore, ev: SyncEventEnvelope, now: i64, new: TaskStore, o: ApplyOutcome) -> bool {
    let wins = lww_applies(old.applied@, ev.task_id, ev.id, ev.created_at);
    let materialize = wins || !task_id_taken(old.tasks@, ev.task_id);
    &&& new.wf()
    &&& (o == ApplyOutcome::Skipped <==> event_id_taken(old.events@, ev.id))
    &&& o == ApplyOutcome::Skipped ==> new == old
    &&& o == ApplyOutcome::Accepted ==> {
        &&& new.events@.len() == old.events@.len() + 1
        &&& new.events@.drop_last() == old.events@
        &&& new.events@.last().seq == next_seq(old.events@)
        &&& new.events@.last().id == ev.id
        &&& new.events@.last().task_id == ev.task_id
        &&& new.events@.last().event_type == ev.event_type
        &&& new.events@.last().payload == EventPayload::Received { json: ev.payload }
        &&& new.events@.last().origin == ev.origin
        &&& new.events@.last().created_at == ev.created_at
        &&& !materialize ==> new.tasks@ == old.tasks@ && new.tags@ == old.tags@
        &&& materialize ==> (ev.task matches PayloadTask::Valid(t) && t.id == ev.task_id
            && exists|k: int| #![trigger new.tasks@[k]] 0 <= k < new.tasks@.len()
                && first_row(new.tasks@, ev.task_id, k)
                && holds_snapshot(new.tasks@[k], t, ev.event_type == TaskEventType::Deleted, now)
                && snapshot_tags_linked(new.tags@, new.tasks@[k].tag_ids@, t.tags@)
                && links_from_snapshot(new.tags@, new.tasks@[k].tag_ids@, t.tags@))
        &&& wins ==> (forall|k: int| #[trigger] first_mark(old.applied@, ev.task_id, k) ==> new.applied@
            == old.applied@.update(k, AppliedMark { task_id: ev.task_id, last_event_id: ev.id, last_event_at: ev.created_at }))
            && (!has_mark(old.applied@, ev.task_id) ==> new.applied@ == old.applied@.push(
            AppliedMark { task_id: ev.task_id, last_event_id: ev.id, last_event_at: ev.created_at }))
        &&& !wins ==> new.applied@ == old.applied@
    }
}

/// Applying the events `evs` one after the other at `now` took `old` to
/// `new` (each step as [`event_applied`] says).
pub open spec fn applied_in_turn(old: TaskStore, evs: Seq<SyncEventEnvelope>, now: i64, new: TaskStore) -> bool
    decreases evs.len(),
{
    if evs.len() == 0 {
        new == old
    } else {
        exists|mid: TaskStore, o: ApplyOutcome| applied_in_turn(old, evs.drop_last(), now, mid)
            && #[trigger] event_applied(mid, evs.last(), now, new, o)
    }
}

/// A batch in the order it is applied: by creation time, then id, equal
/// keys in their given order.
pub open spec fn batch_order(envs: Seq<SyncEventEnvelope>) -> Seq<SyncEventEnvelope> {
    env_order(envs, envs.len() as int).map_values(|j: usize| envs[j as int])
}

/// Two rows agree on every field but their tag links.
pub open spec fn same_fields(x: TaskRecord, y: TaskRecord) -> bool {
    &&& x.id == y.id
    &&& x.title == y.title
    &&& x.description == y.description
    &&& x.status == y.status
    &&& x.due_at == y.due_at
    &&& x.repeat_cron == y.repeat_cron
    &&& x.created_at == y.created_at
    &&& x.updated_at == y.updated_at
    &&& x.deleted_at == y.deleted_at
}

proof fn lemma_first_row_unique(tasks: Seq<TaskRecord>, id: u128, a: int, b: int)
    requires
        first_row(tasks, id, a),
        first_row(tasks, id, b),
    ensures
        a == b,
{
    if a < b {
        assert(tasks[a].id == id);
    } else if b < a {
        assert(tasks[b].id == id);
    }
}

/// What taking in `ev` did to its task's row: when it materialized, the
/// first row of the task holds its snapshot; otherwise the rows stayed.
proof fn lemma_row_after(old: TaskStore, ev: SyncEventEnvelope, now: i64, new: TaskStore)
    requires
        event_applied(old, ev, now, new, ApplyOutcome::Accepted),
    ensures
        ({
            let materialize = lww_applies(old.applied@, ev.task_id, ev.id, ev.created_at) || !task_id_taken(
                old.tasks@, ev.task_id);
            &&& materialize ==> ev.task is Valid && task_id_taken(new.tasks@, ev.task_id)
                && forall|i: int| #[trigger] first_row(new.tasks@, ev.task_id, i) ==> holds_snapshot(new.tasks@[i],
                ev.task->Valid_0, ev.event_type == TaskEventType::Deleted, now)
            &&& !materialize ==> new.tasks@ == old.tasks@
        }),
{
    let materialize = lww_applies(old.applied@, ev.task_id, ev.id, ev.created_at) || !task_id_taken(
        old.tasks@, ev.task_id);
    if materialize {
        let k = choose|k: int| #![trigger new.tasks@[k]] 0 <= k < new.tasks@.len() && first_row(new.tasks@, ev.task_id, k)
            && holds_snapshot(new.tasks@[k], ev.task->Valid_0, ev.event_type == TaskEventType::Deleted, now);
        assert(new.tasks@[k].id == ev.task_id);
        assert forall|i: int| #[trigger] first_row(new.tasks@, ev.task_id, i) implies holds_snapshot(new.tasks@[i],
            ev.task->Valid_0, ev.event_type == TaskEventType::Deleted, now) by {
            lemma_first_row_unique(new.tasks@, ev.task_id, k, i);
        }
    }
}

/// Whether `b` still wins after `a` was taken in: it is later than `a` and
/// won before.
proof fn lemma_wins_after(ap: Seq<AppliedMark>, a: SyncEventEnvelope, b: SyncEventEnvelope)
    requires
        a.task_id == b.task_id,
    ensures
        lww_applies(marks_after(ap, a), b.task_id, b.id, b.created_at) <==> later(b.created_at, b.id, a.created_at, a.id)
            && lww_applies(ap, b.task_id, b.id, b.created_at),
{
    let t = a.task_id;
    if has_mark(ap, t) {
        let w = choose|w: int| 0 <= w < ap.len() && #[trigger] ap[w].task_id == t;
        lemma_has_mark_first(ap, t, w);
        let k = choose|k: int| first_mark(ap, t, k);
        let after = ap.update(k, winner(ap[k], mark_for(a)));
        assert(first_mark(after, t, k));
        assert forall|j: int| #[trigger] first_mark(after, t, j) implies j == k by {
            lemma_first_mark_unique(after, t, k, j);
        }
        assert forall|j: int| #[trigger] first_mark(ap, t, j) implies j == k by {
            lemma_first_mark_unique(ap, t, k, j);
        }
    } else {
        let n = ap.len() as int;
        let after = ap.push(mark_for(a));
        assert(first_mark(after, t, n));
        assert forall|j: int| #[trigger] first_mark(after, t, j) implies j == n by {
            lemma_first_mark_unique(after, t, n, j);
        }
    }
}

/// After a received event is taken in and wins (or brings a task not known
/// yet), the tag links of its task's first row are exactly the tags of the
/// event's snapshot: each snapshot tag is linked, found by its trimmed name
/// with ASCII case ignored, and each link is the id of a tag that the
/// snapshot so names. Links the row had before, for tags the snapshot no
/// longer carries, are gone.
pub proof fn lemma_received_links_are_snapshot_tags(old: TaskStore, ev: SyncEventEnvelope, now: i64, new: TaskStore)
    requires
        event_applied(old, ev, now, new, ApplyOutcome::Accepted),
        lww_applies(old.applied@, ev.task_id, ev.id, ev.created_at) || !task_id_taken(old.tasks@, ev.task_id),
    ensures
        ev.task is Valid,
        exists|k: int|
            #![trigger new.tasks@[k]]
            first_row(new.tasks@, ev.task_id, k) && {
                let links = new.tasks@[k].tag_ids@;
                let snap = ev.task->Valid_0.tags@;
                &&& forall|j: int|
                    0 <= j < snap.len() ==> linked_key(new.tags@, links, nocase_key(trim(#[trigger] snap[j].name@)))
                &&& forall|m: int| 0 <= m < links.len() ==> snapshot_link(new.tags@, snap, #[trigger] links[m])
            },
{
    let t = ev.task->Valid_0;
    let k = choose|k: int|
        #![trigger new.tasks@[k]]
        0 <= k < new.tasks@.len() && first_row(new.tasks@, ev.task_id, k) && snapshot_tags_linked(
            new.tags@,
            new.tasks@[k].tag_ids@,
            t.tags@,
        ) && links_from_snapshot(new.tags@, new.tasks@[k].tag_ids@, t.tags@);
    assert(first_row(new.tasks@, ev.task_id, k));
}

/// Last writer wins does not depend on arrival order: after two new
/// received events of one task, taken in either order, the first row of the
/// task holds the same fields (the later event's snapshot, or the row as it
/// was when an earlier applied event is later than both), provided a task
/// with a mark has a row.
pub proof fn lemma_two_events_same_row(
    s0: TaskStore,
    a: SyncEventEnvelope,
    b: SyncEventEnvelope,
    now: i64,
    s1: TaskStore,
    s2: TaskStore,
    t1: TaskStore,
    t2: TaskStore,
    o1: ApplyOutcome,
    o2: ApplyOutcome,
    p1: ApplyOutcome,
    p2: ApplyOutcome,
)
    requires
        event_applied(s0, a, now, s1, o1),
        event_applied(s1, b, now, s2, o2),
        event_applied(s0, b, now, t1, p1),
        event_applied(t1, a, now, t2, p2),
        a.task_id == b.task_id,
        a.id != b.id,
        !event_id_taken(s0.events@, a.id),
        !event_id_taken(s0.events@, b.id),
        task_id_taken(s0.tasks@, a.task_id) || !has_mark(s0.applied@, a.task_id),
    ensures
        forall|i: int, j: int| first_row(s2.tasks@, a.task_id, i) && first_row(t2.tasks@, a.task_id, j)
            ==> same_fields(#[trigger] s2.tasks@[i], #[trigger] t2.tasks@[j]),
{
    let t = a.task_id;
    crate::events::lemma_log_push(s0.events@, s1.events@);
    crate::events::lemma_log_push(s0.events@, t1.events@);
    lemma_marks_after(s0, a, now, s1);
    lemma_marks_after(s1, b, now, s2);
    lemma_marks_after(s0, b, now, t1);
    lemma_marks_after(t1, a, now, t2);
    lemma_row_after(s0, a, now, s1);
    lemma_row_after(s1, b, now, s2);
    lemma_row_after(s0, b, now, t1);
    lemma_row_after(t1, a, now, t2);
    lemma_wins_after(s0.applied@, a, b);
    lemma_wins_after(s0.applied@, b, a);
    let ap = s0.applied@;
    if has_mark(ap, t) {
        let w = choose|w: int| 0 <= w < ap.len() && #[trigger] ap[w].task_id == t;
        lemma_has_mark_first(ap, t, w);
        let k = choose|k: int| first_mark(ap, t, k);
        assert(lww_applies(ap, t, a.id, a.created_at) == later(a.created_at, a.id, ap[k].last_event_at, ap[k].last_event_id));
        assert(lww_applies(ap, t, b.id, b.created_at) == later(b.created_at, b.id, ap[k].last_event_at, ap[k].last_event_id));
    }
    assert forall|i: int, j: int| first_row(s2.tasks@, t, i) && first_row(t2.tasks@, t, j)
        implies same_fields(#[trigger] s2.tasks@[i], #[trigger] t2.tasks@[j]) by {
        if s2.tasks@ == s0.tasks@ && t2.tasks@ == s0.tasks@ {
            lemma_first_row_unique(s0.tasks@, t, i, j);
        }
    }
}

/// When taking in `ev` succeeds: its id is already known (it is skipped),
/// or there is room in the log and, when it is to be materialized, it
/// carries a snapshot of its own task whose tags can be linked (see
/// [`snapshot_tags_ok`]).
pub open spec fn event_ok(s: TaskStore, ev: SyncEventEnvelope, fallback: Seq<u128>) -> bool {
    ||| event_id_taken(s.events@, ev.id)
    ||| next_seq(s.events@) <= i64::MAX && ((lww_applies(s.applied@, ev.task_id, ev.id, ev.created_at) || !task_id_taken(
        s.tasks@, ev.task_id)) ==> (ev.task matches PayloadTask::Valid(t) && t.id == ev.task_id && snapshot_tags_ok(
        s.tags@, t.tags@, fallback)))
}

/// Applies one received event at `now`: an event whose id is known is
/// skipped; otherwise, when it wins (last writer wins) or its task is not
/// known yet, its task snapshot replaces the task row and its tags, and the
/// event is logged as received, with the winner's mark updated when it won.
/// `fallback` gives ids for snapshot tags whose own id is taken.
pub fn apply_remote_event(store: &mut TaskStore, ev: &SyncEventEnvelope, fallback: &Vec<u128>, now: i64) -> (r: Result<ApplyOutcome, Error>)
    requires
        old(store).wf(),
        ev.task matches PayloadTask::Valid(t) ==> fallback@.len() == t.tags@.len(),
    ensures
        final(store).wf(),
        r is Err ==> *final(store) == *old(store),
        event_id_taken(old(store).events@, ev.id) ==> r == Ok::<ApplyOutcome, Error>(ApplyOutcome::Skipped),
        r matches Ok(o) ==> event_applied(*old(store), *ev, now, *final(store), o),
        r matches Err(e) ==> (e is Message || e is Database),
        !event_id_taken(old(store).events@, ev.id) && next_seq(old(store).events@) > i64::MAX ==> (r matches Err(e)
            && e is Database),
        ({
            let wins = lww_applies(old(store).applied@, ev.task_id, ev.id, ev.created_at);
            !event_id_taken(old(store).events@, ev.id) && next_seq(old(store).events@) <= i64::MAX
                && (wins || !task_id_taken(old(store).tasks@, ev.task_id))
        }) ==> match ev.task {
            PayloadTask::Missing => r matches Err(e) && e matches Error::Message(m) && m@ == missing_task(),
            PayloadTask::Invalid(d) => r matches Err(e) && e matches Error::Message(m) && m@ == invalid_task_prefix() + d@,
            PayloadTask::Valid(t) => t.id != ev.task_id ==> (r matches Err(e) && e matches Error::Message(m)
                && m@ == mismatched_task()),
        },
        ({
            let wins = lww_applies(old(store).applied@, ev.task_id, ev.id, ev.created_at);
            !event_id_taken(old(store).events@, ev.id) && next_seq(old(store).events@) <= i64::MAX
                && !wins && task_id_taken(old(store).tasks@, ev.task_id)
        }) ==> r == Ok::<ApplyOutcome, Error>(ApplyOutcome::Accepted),
        event_ok(*old(store), *ev, fallback@) ==> r is Ok,
{
    let mut k: usize = 0;
    while k < store.events.len()
        invariant
            k <= store.events@.len(),
            *store == *old(store),
            store.wf(),
            forall|j: int| 0 <= j < k ==> #[trigger] store.events@[j].id != ev.id,
        decreases store.events@.len() - k,
    {
        if store.events[k].id == ev.id {
            return Ok(ApplyOutcome::Skipped);
        }
        k += 1;
    }
    let task_exists = task_id_used(&store.tasks, ev.task_id);
    let wins = should_apply_lww(&store.applied, ev.task_id, ev.id, ev.created_at);
    let seq = event_slot(&store.events, ev.id)?;
    let ghost old_store = *store;
    if wins || !task_exists {
        let t = match &ev.task {
            PayloadTask::Missing => {
                return Err(Error::Message(from_chars(&to_chars("sync event missing payload.task"))));
            },
            PayloadTask::Invalid(m) => {
                let mut text = to_chars("invalid payload.task: ");
                crate::text::push_all(&mut text, &to_chars(m.as_str()));
                return Err(Error::Message(from_chars(&text)));
            },
            PayloadTask::Valid(t) => t,
        };
        if t.id != ev.task_id {
            return Err(Error::Message(from_chars(&to_chars("payload.task.id does not match event task_id"))));
        }
        let mut work = crate::tasks::copy_tags(&store.tags);
        let links = link_snapshot_tags(&mut work, &t.tags, fallback, now)?;
        let ghost links_g = links@;
        proof {
            assert(snapshot_tags_linked(work@, links_g, t.tags@));
            assert(links_from_snapshot(work@, links_g, t.tags@));
        }
        let tombstone = ev.event_type == TaskEventType::Deleted && t.deleted_at.is_none();
        let rec = TaskRecord {
            id: t.id,
            title: t.title.clone(),
            description: copy_opt(&t.description),
            status: t.status,
            due_at: t.due_at,
            repeat_cron: copy_opt(&t.repeat_cron),
            created_at: t.created_at,
            updated_at: if tombstone { now } else { t.updated_at },
            deleted_at: if tombstone { Some(now) } else { t.deleted_at },
            tag_ids: links,
        };
        let ghost deleted_event = ev.event_type == TaskEventType::Deleted;
        proof {
            assert(holds_snapshot(rec, *t, deleted_event, now));
        }
        match find_row(&store.tasks, ev.task_id) {
            Some(i) => {
                store.tasks.set(i, rec);
                proof {
                    assert(first_row(store.tasks@, ev.task_id, i as int));
                    assert(holds_snapshot(store.tasks@[i as int], *t, deleted_event, now));
                    assert(store.tasks@[i as int].tag_ids@ == links_g);
                }
            },
            None => {
                store.tasks.push(rec);
                proof {
                    let n = store.tasks@.len() - 1;
                    assert forall|j: int| 0 <= j < n implies #[trigger] store.tasks@[j].id != ev.task_id by {
                        assert(store.tasks@[j] == old_store.tasks@[j]);
                    }
                    assert(first_row(store.tasks@, ev.task_id, n));
                    assert(holds_snapshot(store.tasks@[n], *t, deleted_event, now));
                    assert(store.tasks@[n].tag_ids@ == links_g);
                }
            },
        }
        store.tags = work;
    }
    let stored = TaskEvent {
        seq,
        id: ev.id,
        task_id: ev.task_id,
        event_type: ev.event_type,
        payload: EventPayload::Received { json: ev.payload.clone() },
        origin: ev.origin.clone(),
        created_at: ev.created_at,
    };
    let ghost before = store.events@;
    store.events.push(stored);
    proof {
        let e = store.events@;
        assert(e.drop_last() == before);
        assert forall|a: int, b: int| 0 <= a < b < e.len() implies #[trigger] e[a].seq < #[trigger] e[b].seq by {
            if b == e.len() - 1 {
                assert(before[a].seq <= before.last().seq);
            }
        }
    }
    let ghost mid = *store;
    if wins {
        set_mark(&mut store.applied, ev.task_id, ev.id, ev.created_at);
    }
    proof {
        assert(store.tasks@ == mid.tasks@);
        assert(store.events@.last().payload == EventPayload::Received { json: ev.payload });
        assert(store.events@.last().origin == ev.origin);
        assert(store.events@.drop_last() == old(store).events@);
    }
    Ok(ApplyOutcome::Accepted)
}


/// `(a_at, a_id)` sorts strictly before `(b_at, b_id)`: earlier time, or the
/// same time and a smaller id.
pub open spec fn time_id_lt(a_at: i64, a_id: u128, b_at: i64, b_id: u128) -> bool {
    a_at < b_at || (a_at == b_at && a_id < b_id)
}

/// Position in `order` before the first envelope that sorts strictly after
/// `x`.
pub open spec fn env_pos(envs: Seq<SyncEventEnvelope>, order: Seq<usize>, x: SyncEventEnvelope) -> int
    decreases order.len(),
{
    if order.len() == 0 {
        0
    } else if time_id_lt(x.created_at, x.id, envs[order[0] as int].created_at, envs[order[0] as int].id) {
        0
    } else {
        1 + env_pos(envs, order.drop_first(), x)
    }
}

/// The indices of the first `n` envelopes ordered by time then id, equal
/// keys in their given order.
pub open spec fn env_order(envs: Seq<SyncEventEnvelope>, n: int) -> Seq<usize>
    decreases n,
{
    if n <= 0 {
        Seq::empty()
    } else {
        let o = env_order(envs, n - 1);
        o.insert(env_pos(envs, o, envs[n - 1]), (n - 1) as usize)
    }
}

proof fn lemma_env_pos(envs: Seq<SyncEventEnvelope>, order: Seq<usize>, x: SyncEventEnvelope, k: int)
    requires
        0 <= k <= order.len(),
        forall|j: int| 0 <= j < k ==> !time_id_lt(x.created_at, x.id, envs[#[trigger] order[j] as int].created_at, envs[order[j] as int].id),
        k < order.len() ==> time_id_lt(x.created_at, x.id, envs[order[k] as int].created_at, envs[order[k] as int].id),
    ensures
        env_pos(envs, order, x) == k,
    decreases k,
{
    if k > 0 {
        let rest = order.drop_first();
        assert forall|j: int| 0 <= j < k - 1 implies !time_id_lt(x.created_at, x.id, envs[#[trigger] rest[j] as int].created_at, envs[rest[j] as int].id) by {
            assert(rest[j] == order[j + 1]);
        }
        if k - 1 < rest.len() {
            assert(rest[k - 1] == order[k]);
        }
        lemma_env_pos(envs, rest, x, k - 1);
    }
}

/// The order in which a batch is applied: by creation time, then id.
pub fn sort_envelopes(envs: &Vec<SyncEventEnvelope>) -> (r: Vec<usize>)
    ensures
        r@ == env_order(envs@, envs@.len() as int),
        r@.len() == envs@.len(),
        forall|j: int| 0 <= j < r@.len() ==> #[trigger] r@[j] < envs@.len(),
{
    let mut order: Vec<usize> = Vec::new();
    let mut n: usize = 0;
    while n < envs.len()
        invariant
            n <= envs@.len(),
            order@ == env_order(envs@, n as int),
            order@.len() == n,
            forall|j: int| 0 <= j < order@.len() ==> #[trigger] order@[j] < n,
        decreases envs@.len() - n,
    {
        let at = envs[n].created_at;
        let id = envs[n].id;
        let mut k: usize = 0;
        while k < order.len() && !(at < envs[order[k]].created_at || (at == envs[order[k]].created_at && id < envs[order[k]].id))
            invariant
                k <= order@.len(),
                n < envs@.len(),
                at == envs@[n as int].created_at,
                id == envs@[n as int].id,
                forall|j: int| 0 <= j < order@.len() ==> #[trigger] order@[j] < n,
                forall|j: int| 0 <= j < k ==> !time_id_lt(at, id, envs@[#[trigger] order@[j] as int].created_at, envs@[order@[j] as int].id),
            decreases order@.len() - k,
        {
            k += 1;
        }
        proof {
            lemma_env_pos(envs@, order@, envs@[n as int], k as int);
        }
        let ghost o = order@;
        order.insert(k, n);
        proof {
            assert forall|j: int| 0 <= j < order@.len() implies #[trigger] order@[j] < n + 1 by {
                if j < k {
                    assert(order@[j] == o[j]);
                } else if j > k {
                    assert(order@[j] == o[j - 1]);
                }
            }
        }
        n += 1;
    }
    order
}

/// Some envelope of `envs` has an id unknown to the log.
pub open spec fn all_known(events: Seq<TaskEvent>, envs: Seq<SyncEventEnvelope>) -> bool {
    forall|k: int| 0 <= k < envs.len() ==> event_id_taken(events, #[trigger] envs[k].id)
}

/// Some envelope of `evs` has id `id`.
pub open spec fn env_id_in(evs: Seq<SyncEventEnvelope>, id: u128) -> bool {
    exists|k: int| 0 <= k < evs.len() && #[trigger] evs[k].id == id
}

/// How many events of `evs`, taken in turn, are new: their id is neither in
/// the log `known` nor on an earlier event of `evs`.
pub open spec fn fresh_count(known: Seq<TaskEvent>, evs: Seq<SyncEventEnvelope>) -> nat
    decreases evs.len(),
{
    if evs.len() == 0 {
        0
    } else {
        let rest = evs.drop_last();
        let id = evs.last().id;
        fresh_count(known, rest) + if event_id_taken(known, id) || env_id_in(rest, id) { 0nat } else { 1nat }
    }
}

/// Fallback tag ids fit the batch: one list per envelope, one id per tag of
/// its snapshot.
pub open spec fn fallback_fits(envs: Seq<SyncEventEnvelope>, fallback: Seq<Vec<u128>>) -> bool {
    &&& fallback.len() == envs.len()
    &&& forall|k: int| 0 <= k < envs.len() ==> (#[trigger] envs[k].task matches PayloadTask::Valid(t)
        ==> fallback[k]@.len() == t.tags@.len())
}

/// Applies a batch of received events at `now` in order of creation time,
/// then id (see [`apply_remote_event`]); the envelope at position `k` takes
/// fallback tag ids from `fallback[k]`. Idempotent by event id, last writer
/// wins on task snapshots. Gives how many were taken in (each new id once)
/// and how many were already known; on success the store went through each
/// event in that order (see [`applied_in_turn`]). On an error the store holds
/// the events applied before the failing one; callers discard it, as the
/// batch is one transaction.
pub fn apply_remote_task_events_at(
    store: &mut TaskStore,
    envs: &Vec<SyncEventEnvelope>,
    now: i64,
    fallback: &Vec<Vec<u128>>,
) -> (r: Result<ApplyStats, Error>)
    requires
        old(store).wf(),
        envs@.len() <= u32::MAX,
        fallback_fits(envs@, fallback@),
    ensures
        final(store).wf(),
        r matches Ok(s) ==> s.accepted + s.skipped == envs@.len(),
        r matches Ok(s) ==> s.accepted == fresh_count(old(store).events@, batch_order(envs@)),
        r is Ok ==> all_known(final(store).events@, envs@),
        all_known(old(store).events@, envs@) ==> *final(store) == *old(store)
            && r == Ok::<ApplyStats, Error>(ApplyStats { accepted: 0, skipped: envs@.len() as u32 }),
        r is Ok ==> applied_in_turn(*old(store), batch_order(envs@), now, *final(store)),
        r matches Err(e) ==> e is Message || e is Database,
        r is Err ==> exists|k: int, mid: TaskStore| 0 <= k < envs@.len()
            && #[trigger] applied_in_turn(*old(store), batch_order(envs@).take(k), now, mid)
            && !event_ok(mid, batch_order(envs@)[k], fallback@[env_order(envs@, envs@.len() as int)[k] as int]@),
{
    let order = sort_envelopes(envs);
    let mut accepted: u32 = 0;
    let mut skipped: u32 = 0;
    let mut i: usize = 0;
    while i < order.len()
        invariant
            i <= order@.len(),
            order@.len() == envs@.len(),
            envs@.len() <= u32::MAX,
            fallback_fits(envs@, fallback@),
            forall|j: int| 0 <= j < order@.len() ==> #[trigger] order@[j] < envs@.len(),
            store.wf(),
            accepted + skipped == i,
            accepted == fresh_count(old(store).events@, order@.take(i as int).map_values(|j: usize| envs@[j as int])),
            forall|x: u128| #[trigger] event_id_taken(store.events@, x) <==> event_id_taken(old(store).events@, x)
                || env_id_in(order@.take(i as int).map_values(|j: usize| envs@[j as int]), x),
            order@ == env_order(envs@, envs@.len() as int),
            applied_in_turn(*old(store), order@.take(i as int).map_values(|j: usize| envs@[j as int]), now, *store),
            all_known(old(store).events@, envs@) ==> *store == *old(store) && accepted == 0,
        decreases order@.len() - i,
    {
        let ev = &envs[order[i]];
        let ghost pre = order@.take(i as int).map_values(|j: usize| envs@[j as int]);
        let ghost post = order@.take(i as int + 1).map_values(|j: usize| envs@[j as int]);
        let ghost before = store.events@;
        let ghost before_store = *store;
        proof {
            assert(post.drop_last() =~= pre);
            assert(post.last() == envs@[order@[i as int] as int]);
        }
        let res = apply_remote_event(store, ev, &fallback[order[i]], now);
        let outcome = match res {
            Ok(o) => o,
            Err(e) => {
                proof {
                    let evs = batch_order(envs@);
                    assert(evs.take(i as int) =~= pre);
                    assert(evs[i as int] == *ev);
                    assert(!event_ok(before_store, evs[i as int], fallback@[order@[i as int] as int]@));
                    assert(applied_in_turn(*old(store), evs.take(i as int), now, before_store));
                }
                return Err(e);
            },
        };
        proof {
            assert(event_applied(before_store, post.last(), now, *store, outcome));
            assert(applied_in_turn(*old(store), post, now, *store));
            if outcome == ApplyOutcome::Accepted {
                crate::events::lemma_log_push(before, store.events@);
            }
            assert forall|x: u128| #[trigger] env_id_in(post, x) <==> env_id_in(pre, x) || ev.id == x by {
                if env_id_in(pre, x) {
                    let k = choose|k: int| 0 <= k < pre.len() && #[trigger] pre[k].id == x;
                    assert(post[k] == pre[k]);
                }
                if env_id_in(post, x) {
                    let k = choose|k: int| 0 <= k < post.len() && #[trigger] post[k].id == x;
                    if k < pre.len() {
                        assert(post[k] == pre[k]);
                    }
                }
                if ev.id == x {
                    assert(post[post.len() - 1].id == x);
                }
            }
            if all_known(old(store).events@, envs@) {
                assert(event_id_taken(old(store).events@, envs@[order@[i as int] as int].id));
            }
        }
        match outcome {
            ApplyOutcome::Accepted => {
                accepted += 1;
            },
            ApplyOutcome::Skipped => {
                skipped += 1;
            },
        }
        i += 1;
    }
    proof {
        assert(order@.take(order@.len() as int) =~= order@);
        assert(order@.take(i as int).map_values(|j: usize| envs@[j as int]) =~= batch_order(envs@));
        assert forall|k: int| 0 <= k < envs@.len() implies event_id_taken(store.events@, #[trigger] envs@[k].id) by {
            lemma_order_covers(envs@, order@, k);
            let j = choose|j: int| 0 <= j < order@.len() && order@[j] == k;
            let evs = batch_order(envs@);
            assert(evs[j] == envs@[k]);
            assert(env_id_in(evs, envs@[k].id));
        }
    }
    Ok(ApplyStats { accepted, skipped })
}

/// Applies a batch of received events as [`apply_remote_task_events_at`]
/// says, at the current time, with fresh fallback tag ids. A batch whose
/// events are all known is answered without reading the clock.
pub fn apply_remote_task_events(store: &mut TaskStore, envs: &Vec<SyncEventEnvelope>) -> (r: Result<ApplyStats, Error>)
    requires
        old(store).wf(),
        envs@.len() <= u32::MAX,
    ensures
        final(store).wf(),
        r matches Ok(s) ==> s.accepted + s.skipped == envs@.len(),
        r matches Ok(s) ==> s.accepted == fresh_count(old(store).events@, batch_order(envs@)),
        r is Ok ==> all_known(final(store).events@, envs@),
        all_known(old(store).events@, envs@) ==> *final(store) == *old(store)
            && r == Ok::<ApplyStats, Error>(ApplyStats { accepted: 0, skipped: envs@.len() as u32 }),
        r is Ok ==> exists|now: i64| applied_in_turn(*old(store), batch_order(envs@), now, *final(store)),
        r matches Err(e) ==> e is Message || e is Database,
        r matches Err(e) ==> (e matches Error::Message(m) && m@ == crate::tags::clock_out_of_range())
            || exists|now: i64, fallback: Seq<Vec<u128>>, k: int, mid: TaskStore| #[trigger] fallback_fits(envs@, fallback)
            && 0 <= k < envs@.len() && #[trigger] applied_in_turn(*old(store), batch_order(envs@).take(k), now, mid)
            && !event_ok(mid, batch_order(envs@)[k], fallback[env_order(envs@, envs@.len() as int)[k] as int]@),
{
    if all_ids_known(&store.events, envs) {
        let fallback = fallback_ids(envs);
        let r = apply_remote_task_events_at(store, envs, 0, &fallback);
        proof {
            if r is Err {
                let (k, mid) = choose|k: int, mid: TaskStore| 0 <= k < envs@.len()
                    && #[trigger] applied_in_turn(*old(store), batch_order(envs@).take(k), 0, mid)
                    && !event_ok(mid, batch_order(envs@)[k], fallback@[env_order(envs@, envs@.len() as int)[k] as int]@);
                assert(fallback_fits(envs@, fallback@));
            }
        }
        return r;
    }
    let now = crate::tags::current_time()?;
    let fallback = fallback_ids(envs);
    let r = apply_remote_task_events_at(store, envs, now, &fallback);
    proof {
        if r is Err {
            let (k, mid) = choose|k: int, mid: TaskStore| 0 <= k < envs@.len()
                && #[trigger] applied_in_turn(*old(store), batch_order(envs@).take(k), now, mid)
                && !event_ok(mid, batch_order(envs@)[k], fallback@[env_order(envs@, envs@.len() as int)[k] as int]@);
            assert(fallback_fits(envs@, fallback@));
        }
    }
    r
}

/// Fresh fallback tag ids for a batch: one per tag of each envelope's
/// snapshot.
fn fallback_ids(envs: &Vec<SyncEventEnvelope>) -> (r: Vec<Vec<u128>>)
    ensures
        fallback_fits(envs@, r@),
{
    let mut r: Vec<Vec<u128>> = Vec::new();
    let mut k: usize = 0;
    while k < envs.len()
        invariant
            k <= envs@.len(),
            r@.len() == k,
            forall|j: int| 0 <= j < k ==> (#[trigger] envs@[j].task matches PayloadTask::Valid(t)
                ==> r@[j]@.len() == t.tags@.len()),
        decreases envs@.len() - k,
    {
        let n: usize = match &envs[k].task {
            PayloadTask::Valid(t) => t.tags.len(),
            _ => 0,
        };
        r.push(crate::tasks::fresh_ids(n));
        k += 1;
    }
    r
}

/// Whether every envelope's id is already in the log.
fn all_ids_known(events: &Vec<TaskEvent>, envs: &Vec<SyncEventEnvelope>) -> (r: bool)
    ensures
        r == all_known(events@, envs@),
{
    let mut k: usize = 0;
    while k < envs.len()
        invariant
            k <= envs@.len(),
            forall|j: int| 0 <= j < k ==> event_id_taken(events@, #[trigger] envs@[j].id),
        decreases envs@.len() - k,
    {
        let mut m: usize = 0;
        let mut found = false;
        while m < events.len()
            invariant
                m <= events@.len(),
                k < envs@.len(),
                found == (exists|q: int| 0 <= q < m && #[trigger] events@[q].id == envs@[k as int].id),
            decreases events@.len() - m,
        {
            if events[m].id == envs[k].id {
                found = true;
            }
            m += 1;
        }
        if !found {
            proof {
                assert(!event_id_taken(events@, envs@[k as int].id));
            }
            return false;
        }
        k += 1;
    }
    true
}

/// Every index of the batch appears in its order.
proof fn lemma_order_covers(envs: Seq<SyncEventEnvelope>, order: Seq<usize>, k: int)
    requires
        envs.len() <= usize::MAX,
        order == env_order(envs, envs.len() as int),
        0 <= k < envs.len(),
    ensures
        exists|j: int| 0 <= j < order.len() && order[j] == k,
{
    lemma_env_order_contains(envs, envs.len() as int, k);
}

/// The batch order lists `n` indices, each below `n`.
proof fn lemma_env_order_rows(envs: Seq<SyncEventEnvelope>, n: int)
    requires
        0 <= n <= envs.len(),
        envs.len() <= usize::MAX,
    ensures
        env_order(envs, n).len() == n,
        forall|j: int| 0 <= j < n ==> #[trigger] env_order(envs, n)[j] < n,
    decreases n,
{
    if n > 0 {
        lemma_env_order_rows(envs, n - 1);
        let o = env_order(envs, n - 1);
        lemma_env_pos_range(envs, o, envs[n - 1]);
        let p = env_pos(envs, o, envs[n - 1]);
        let o2 = o.insert(p, (n - 1) as usize);
        assert forall|j: int| 0 <= j < n implies #[trigger] o2[j] < n by {
            if j < p {
                assert(o2[j] == o[j]);
            } else if j > p {
                assert(o2[j] == o[j - 1]);
            }
        }
    }
}

proof fn lemma_env_order_contains(envs: Seq<SyncEventEnvelope>, n: int, k: int)
    requires
        envs.len() <= usize::MAX,
        0 <= k < n <= envs.len(),
    ensures
        exists|j: int| 0 <= j < env_order(envs, n).len() && env_order(envs, n)[j] == k,
    decreases n,
{
    let o = env_order(envs, n - 1);
    lemma_env_pos_range(envs, o, envs[n - 1]);
    let p = env_pos(envs, o, envs[n - 1]);
    if k == n - 1 {
        assert(env_order(envs, n)[p] == k);
    } else {
        lemma_env_order_contains(envs, n - 1, k);
        let j = choose|j: int| 0 <= j < o.len() && o[j] == k;
        if j < p {
            assert(env_order(envs, n)[j] == k);
        } else {
            assert(env_order(envs, n)[j + 1] == k);
        }
    }
}

proof fn lemma_env_pos_range(envs: Seq<SyncEventEnvelope>, order: Seq<usize>, x: SyncEventEnvelope)
    ensures
        0 <= env_pos(envs, order, x) <= order.len(),
    decreases order.len(),
{
    if order.len() > 0 {
        lemma_env_pos_range(envs, order.drop_first(), x);
    }
}


/// What syncing with one peer did.
#[derive(Clone, Debug)]
pub struct PeerSyncResult {
    pub peer_device_id: String,
    pub pulled: u32,
    pub pushed: u32,
    pub skipped: u32,
    pub error: Option<String>,
}

/// What syncing with all enabled peers did.
#[derive(Clone, Debug)]
pub struct SyncReport {
    pub peers: Vec<PeerSyncResult>,
}

/// The result for one peer: a failed pull reports its error; after a pull,
/// its counts, then the push count or the push's error.
pub fn peer_sync_result(peer_device_id: String, pull: Result<(u32, u32), String>, push: Option<Result<u32, String>>) -> (r: PeerSyncResult)
    ensures
        r.peer_device_id == peer_device_id,
        pull matches Err(m) ==> r.pulled == 0 && r.skipped == 0 && r.pushed == 0 && r.error == Some(m),
        pull matches Ok((a, s)) ==> r.pulled == a && r.skipped == s && match push {
            Some(Ok(p)) => r.pushed == p && r.error is None,
            Some(Err(m)) => r.pushed == 0 && r.error == Some(m),
            None => r.pushed == 0 && r.error is None,
        },
{
    match pull {
        Err(m) => PeerSyncResult { peer_device_id, pulled: 0, pushed: 0, skipped: 0, error: Some(m) },
        Ok((accepted, skipped)) => match push {
            Some(Ok(pushed)) => PeerSyncResult { peer_device_id, pulled: accepted, pushed, skipped, error: None },
            Some(Err(m)) => PeerSyncResult { peer_device_id, pulled: accepted, pushed: 0, skipped, error: Some(m) },
            None => PeerSyncResult { peer_device_id, pulled: accepted, pushed: 0, skipped, error: None },
        },
    }
}

/// A request is authorized when a token is set and its `Authorization`
/// header is `Bearer ` followed by exactly that token.
pub open spec fn authorized(header: Option<Seq<char>>, expected: Seq<char>) -> bool {
    &&& expected.len() > 0
    &&& (header matches Some(h) && h == "Bearer "@ + expected)
}

/// Checks the `Authorization` header of a sync request (see [`authorized`]);
/// `header` is `None` when the request has none or it is not visible ASCII.
pub fn bearer_authorized(header: Option<&str>, expected: &str) -> (r: bool)
    ensures
        r == authorized(match header {
            Some(h) => Some(h@),
            None => None,
        }, expected@),
{
    if crate::text::to_chars(expected).len() == 0 {
        return false;
    }
    match header {
        None => false,
        Some(h) => {
            let mut want: Vec<char> = Vec::new();
            crate::text::append_str(&mut want, "Bearer ");
            crate::text::append_str(&mut want, expected);
            crate::order::chars_eq(&crate::text::to_chars(h), &want)
        },
    }
}

/// Error text of an enabled listener without a token.
pub open spec fn token_required() -> Seq<char> {
    "peer sync token is required"@
}

/// Whether the desktop's sync listener starts with `settings`: not when
/// peer sync is off; an error when it is on without a token (blank once
/// trimmed); else it starts.
pub fn listener_should_start(settings: &crate::models::PeerSyncSettings) -> (r: Result<bool, Error>)
    ensures
        !settings.enabled ==> r == Ok::<bool, Error>(false),
        settings.enabled && crate::text::trim(settings.token@).len() == 0 ==> (r matches Err(e)
            && e matches Error::Message(m) && m@ == token_required()),
        settings.enabled && crate::text::trim(settings.token@).len() > 0 ==> r == Ok::<bool, Error>(true),
{
    if !settings.enabled {
        return Ok(false);
    }
    if crate::text::trim_str(settings.token.as_str()).unicode_len() == 0 {
        return Err(Error::Message(crate::text::from_chars(&crate::text::to_chars("peer sync token is required"))));
    }
    Ok(true)
}

/// The listener's bind address and token for `jade sync serve`: the bind
/// given, else the stored one (the default when blank); the token given when
/// not empty, else the stored one when not empty, else `None` (a new one is
/// to be generated).
pub fn serve_settings(
    bind: Option<String>,
    token: Option<String>,
    stored: &crate::models::PeerSyncSettings,
) -> (r: (String, Option<String>))
    ensures
        r.0@ == match bind {
            Some(b) => b@,
            None => if stored.bind@.len() == 0 {
                crate::models::DEFAULT_SYNC_BIND@
            } else {
                stored.bind@
            },
        },
        r.1 == match token {
            Some(t) if t@.len() > 0 => Some(t),
            _ => if stored.token@.len() > 0 {
                Some(stored.token)
            } else {
                None::<String>
            },
        },
{
    let b = match bind {
        Some(b) => b,
        None => if stored.bind.unicode_len() == 0 {
            from_chars(&to_chars(crate::models::DEFAULT_SYNC_BIND))
        } else {
            stored.bind.clone()
        },
    };
    let t = match token {
        Some(t) if t.unicode_len() > 0 => Some(t),
        _ => if stored.token.unicode_len() > 0 {
            Some(stored.token.clone())
        } else {
            None
        },
    };
    (b, t)
}

/// The greatest of `base` and the numbers `seqs`.
pub open spec fn seq_max(base: i64, seqs: Seq<i64>) -> i64
    decreases seqs.len(),
{
    if seqs.len() == 0 {
        base
    } else {
        let m = seq_max(base, seqs.drop_last());
        if seqs.last() > m {
            seqs.last()
        } else {
            m
        }
    }
}

/// A peer's pull cursor after pulling `envs`: the greatest sender sequence
/// number seen, when above the cursor, else the cursor.
pub fn pulled_cursor(last_pulled_seq: i64, envs: &Vec<SyncEventEnvelope>) -> (r: i64)
    ensures
        r == seq_max(last_pulled_seq, envs@.map_values(|e: SyncEventEnvelope| e.seq)),
{
    let ghost seqs = envs@.map_values(|e: SyncEventEnvelope| e.seq);
    let mut m = last_pulled_seq;
    let mut i: usize = 0;
    while i < envs.len()
        invariant
            i <= envs@.len(),
            seqs == envs@.map_values(|e: SyncEventEnvelope| e.seq),
            m == seq_max(last_pulled_seq, seqs.take(i as int)),
        decreases envs@.len() - i,
    {
        proof {
            assert(seqs.take(i as int + 1).drop_last() =~= seqs.take(i as int));
        }
        if envs[i].seq > m {
            m = envs[i].seq;
        }
        i += 1;
    }
    proof {
        assert(seqs.take(envs@.len() as int) =~= seqs);
    }
    m
}

/// A peer's push acknowledgement after pushing `events`: the greatest local
/// sequence number pushed, when above the acknowledgement, else it.
pub fn pushed_ack(last_push_ack: i64, events: &Vec<&TaskEvent>) -> (r: i64)
    ensures
        r == seq_max(last_push_ack, events@.map_values(|e: &TaskEvent| e.seq)),
{
    let ghost seqs = events@.map_values(|e: &TaskEvent| e.seq);
    let mut m = last_push_ack;
    let mut i: usize = 0;
    while i < events.len()
        invariant
            i <= events@.len(),
            seqs == events@.map_values(|e: &TaskEvent| e.seq),
            m == seq_max(last_push_ack, seqs.take(i as int)),
        decreases events@.len() - i,
    {
        proof {
            assert(seqs.take(i as int + 1).drop_last() =~= seqs.take(i as int));
        }
        if events[i].seq > m {
            m = events[i].seq;
        }
        i += 1;
    }
    proof {
        assert(seqs.take(events@.len() as int) =~= seqs);
    }
    m
}

/// A paired peer as a sync round sees it.
#[derive(Clone, Debug)]
pub struct PeerCursor {
    pub peer_device_id: String,
    pub enabled: bool,
    /// The peer's sequence number the next pull starts after.
    pub last_pulled_seq: i64,
    /// The local sequence number the next push starts after.
    pub last_push_ack: i64,
}

/// What a sync round asks its caller to do next.
#[derive(Clone, Copy, Debug, PartialEq, Eq, Structural)]
pub enum RoundAction {
    /// Fetch peer `peer`'s events after `after_seq` and apply them.
    Pull { peer: usize, after_seq: i64 },
    /// Send the local events after `after_seq` to peer `peer`.
    Push { peer: usize, after_seq: i64 },
    /// The round is over.
    Finish,
}

/// What the caller reports back to a sync round.
#[derive(Debug)]
pub enum RoundEvent {
    /// Start the round.
    Begin,
    /// The pull just asked for: accepted and skipped counts, or its error.
    Pulled(Result<(u32, u32), String>),
    /// The push just asked for: the accepted count, or its error.
    Pushed(Result<u32, String>),
}

/// A sync round over the paired peers: the enabled peers in order, each
/// pulled then, when the pull worked, pushed.
#[derive(Debug)]
pub struct SyncRound {
    pub peers: Vec<PeerCursor>,
    /// The peer in progress; the number of peers once the round is over.
    pub at: usize,
    /// The counts of the pull of the peer in progress, once it worked.
    pub pulled: Option<(u32, u32)>,
    /// One result per peer done.
    pub results: Vec<PeerSyncResult>,
}

/// The first enabled peer at or after `from`, or the number of peers.
pub open spec fn first_enabled(peers: Seq<PeerCursor>, from: int) -> int
    decreases peers.len() - from,
{
    if from < 0 || from >= peers.len() {
        peers.len() as int
    } else if peers[from].enabled {
        from
    } else {
        first_enabled(peers, from + 1)
    }
}

/// The action for the peer at `at`: its pull, or the end of the round.
pub open spec fn pull_or_finish(peers: Seq<PeerCursor>, at: int) -> RoundAction {
    if 0 <= at < peers.len() {
        RoundAction::Pull { peer: at as usize, after_seq: peers[at].last_pulled_seq }
    } else {
        RoundAction::Finish
    }
}

proof fn lemma_first_enabled(peers: Seq<PeerCursor>, from: int)
    requires
        0 <= from,
    ensures
        from <= first_enabled(peers, from) <= peers.len() || (from > peers.len() && first_enabled(peers, from) == peers.len()),
        first_enabled(peers, from) < peers.len() ==> peers[first_enabled(peers, from)].enabled,
        forall|j: int| from <= j < first_enabled(peers, from) ==> !(#[trigger] peers[j]).enabled,
    decreases peers.len() - from,
{
    if from < peers.len() && !peers[from].enabled {
        lemma_first_enabled(peers, from + 1);
    }
}

fn next_enabled(peers: &Vec<PeerCursor>, from: usize) -> (r: usize)
    ensures
        r == first_enabled(peers@, from as int),
{
    let mut j = from;
    while j < peers.len() && !peers[j].enabled
        invariant
            from <= j,
            first_enabled(peers@, from as int) == first_enabled(peers@, j as int),
        decreases peers@.len() - j,
    {
        j += 1;
    }
    if j >= peers.len() {
        peers.len()
    } else {
        j
    }
}

fn pull_action(peers: &Vec<PeerCursor>, at: usize) -> (r: RoundAction)
    ensures
        r == pull_or_finish(peers@, at as int),
{
    if at < peers.len() {
        RoundAction::Pull { peer: at, after_seq: peers[at].last_pulled_seq }
    } else {
        RoundAction::Finish
    }
}

/// Advances a sync round by what the caller reports:
/// - `Begin` starts at the first enabled peer and asks for its pull;
/// - a failed pull records the peer's result with that error and moves to
///   the next enabled peer;
/// - a pull that worked asks for the push to that peer;
/// - a push records the peer's result (see [`peer_sync_result`]) and moves
///   on;
/// - a report the round did not ask for changes nothing and ends it.
pub fn sync_round_step(round: &mut SyncRound, event: RoundEvent) -> (r: RoundAction)
    requires
        old(round).at <= old(round).peers@.len(),
    ensures
        final(round).peers@ == old(round).peers@,
        final(round).at <= final(round).peers@.len(),
        match event {
            RoundEvent::Begin => {
                &&& final(round).at == first_enabled(old(round).peers@, 0)
                &&& final(round).pulled is None
                &&& final(round).results@.len() == 0
                &&& r == pull_or_finish(old(round).peers@, final(round).at as int)
            },
            RoundEvent::Pulled(outcome) => if old(round).at < old(round).peers@.len() && old(round).pulled is None {
                match outcome {
                    Err(m) => {
                        &&& final(round).at == first_enabled(old(round).peers@, old(round).at + 1)
                        &&& final(round).pulled is None
                        &&& final(round).results@.len() == old(round).results@.len() + 1
                        &&& final(round).results@.drop_last() == old(round).results@
                        &&& final(round).results@.last().peer_device_id@ == old(round).peers@[old(round).at as int].peer_device_id@
                        &&& final(round).results@.last().pulled == 0 && final(round).results@.last().pushed == 0
                        &&& final(round).results@.last().skipped == 0
                        &&& final(round).results@.last().error == Some(m)
                        &&& r == pull_or_finish(old(round).peers@, final(round).at as int)
                    },
                    Ok(counts) => {
                        &&& final(round).at == old(round).at
                        &&& final(round).pulled == Some(counts)
                        &&& final(round).results@ == old(round).results@
                        &&& r == RoundAction::Push { peer: old(round).at, after_seq: old(round).peers@[old(round).at as int].last_push_ack }
                    },
                }
            } else {
                *final(round) == *old(round) && r == RoundAction::Finish
            },
            RoundEvent::Pushed(outcome) => if old(round).at < old(round).peers@.len() && old(round).pulled is Some {
                let (a, sk) = old(round).pulled->Some_0;
                &&& final(round).at == first_enabled(old(round).peers@, old(round).at + 1)
                &&& final(round).pulled is None
                &&& final(round).results@.len() == old(round).results@.len() + 1
                &&& final(round).results@.drop_last() == old(round).results@
                &&& final(round).results@.last().peer_device_id@ == old(round).peers@[old(round).at as int].peer_device_id@
                &&& final(round).results@.last().pulled == a && final(round).results@.last().skipped == sk
                &&& match outcome {
                    Ok(p) => final(round).results@.last().pushed == p && final(round).results@.last().error is None,
                    Err(m) => final(round).results@.last().pushed == 0 && final(round).results@.last().error == Some(m),
                }
                &&& r == pull_or_finish(old(round).peers@, final(round).at as int)
            } else {
                *final(round) == *old(round) && r == RoundAction::Finish
            },
        },
{
    match event {
        RoundEvent::Begin => {
            round.at = next_enabled(&round.peers, 0);
            round.pulled = None;
            round.results = Vec::new();
            proof {
                lemma_first_enabled(round.peers@, 0);
            }
            pull_action(&round.peers, round.at)
        },
        RoundEvent::Pulled(outcome) => {
            if round.at >= round.peers.len() || round.pulled.is_some() {
                return RoundAction::Finish;
            }
            match outcome {
                Err(m) => {
                    let id = from_chars(&to_chars(round.peers[round.at].peer_device_id.as_str()));
                    let result = peer_sync_result(id, Err(m), None);
                    round.results.push(result);
                    let next = next_enabled(&round.peers, round.at + 1);
                    proof {
                        lemma_first_enabled(round.peers@, round.at + 1);
                    }
                    round.at = next;
                    pull_action(&round.peers, round.at)
                },
                Ok(counts) => {
                    round.pulled = Some(counts);
                    RoundAction::Push { peer: round.at, after_seq: round.peers[round.at].last_push_ack }
                },
            }
        },
        RoundEvent::Pushed(outcome) => {
            if round.at >= round.peers.len() {
                return RoundAction::Finish;
            }
            let counts = match round.pulled {
                Some(c) => c,
                None => {
                    return RoundAction::Finish;
                },
            };
            let id = from_chars(&to_chars(round.peers[round.at].peer_device_id.as_str()));
            let result = peer_sync_result(id, Ok(counts), Some(outcome));
            round.results.push(result);
            round.pulled = None;
            let next = next_enabled(&round.peers, round.at + 1);
            proof {
                lemma_first_enabled(round.peers@, round.at + 1);
            }
            round.at = next;
            pull_action(&round.peers, round.at)
        },
    }
}

/// The mark of task `t`: its first mark, if it has one.
pub open spec fn mark_of(applied: Seq<AppliedMark>, t: u128) -> Option<AppliedMark> {
    if has_mark(applied, t) {
        Some(applied[choose|k: int| first_mark(applied, t, k)])
    } else {
        None
    }
}

proof fn lemma_mark_of(applied: Seq<AppliedMark>, t: u128, k: int)
    requires
        first_mark(applied, t, k),
    ensures
        mark_of(applied, t) == Some(applied[k]),
{
    assert(has_mark(applied, t));
    let c = choose|c: int| first_mark(applied, t, c);
    lemma_first_mark_unique(applied, t, k, c);
}

/// The received events `evs` are all for task `t`, none known to `known`,
/// no two with one id.
pub open spec fn fresh_history(known: Seq<TaskEvent>, evs: Seq<SyncEventEnvelope>, t: u128) -> bool {
    &&& forall|k: int| 0 <= k < evs.len() ==> (#[trigger] evs[k]).task_id == t && !event_id_taken(known, evs[k].id)
    &&& forall|a: int, b: int| 0 <= a < b < evs.len() ==> (#[trigger] evs[a]).id != (#[trigger] evs[b]).id
}

/// Mark `m` is not earlier than event `e`.
pub open spec fn not_before(e: SyncEventEnvelope, m: AppliedMark) -> bool {
    !later(e.created_at, e.id, m.last_event_at, m.last_event_id)
}

/// Last writer wins over a whole history: after the new events `evs` of
/// task `t` are taken in, one after the other, the task's mark is the
/// latest of its mark before and the events (so it does not depend on
/// their order); when it is an event's, the task's row holds that event's
/// snapshot, else the rows are as they were. This holds for a task known
/// before, and for one the events first create (it had no mark either).
pub proof fn lemma_history_last_writer_wins(s0: TaskStore, evs: Seq<SyncEventEnvelope>, now: i64, s: TaskStore, t: u128)
    requires
        applied_in_turn(s0, evs, now, s),
        fresh_history(s0.events@, evs, t),
        task_id_taken(s0.tasks@, t) || !has_mark(s0.applied@, t),
    ensures
        task_id_taken(s0.tasks@, t) || evs.len() > 0 ==> task_id_taken(s.tasks@, t),
        forall|x: u128| #[trigger] event_id_taken(s.events@, x) <==> event_id_taken(s0.events@, x) || env_id_in(evs, x),
        (evs.len() > 0 || has_mark(s0.applied@, t)) ==> mark_of(s.applied@, t) is Some,
        mark_of(s.applied@, t) matches Some(m) ==> {
            &&& forall|k: int| 0 <= k < evs.len() ==> not_before(#[trigger] evs[k], m)
            &&& mark_of(s0.applied@, t) matches Some(m0) ==> !later(m0.last_event_at, m0.last_event_id, m.last_event_at,
                m.last_event_id)
            &&& (mark_of(s0.applied@, t) == Some(m) && s.tasks@ == s0.tasks@) || exists|k: int| 0 <= k < evs.len()
                && m == mark_for(#[trigger] evs[k]) && forall|i: int| #[trigger] first_row(s.tasks@, t, i)
                ==> holds_snapshot(s.tasks@[i], evs[k].task->Valid_0, evs[k].event_type == TaskEventType::Deleted, now)
        },
    decreases evs.len(),
{
    if evs.len() == 0 {
        return;
    }
    let pre = evs.drop_last();
    let e = evs.last();
    let (mid, o) = choose|mid: TaskStore, o: ApplyOutcome| applied_in_turn(s0, pre, now, mid)
        && #[trigger] event_applied(mid, e, now, s, o);
    assert(fresh_history(s0.events@, pre, t)) by {
        assert forall|k: int| 0 <= k < pre.len() implies (#[trigger] pre[k]).task_id == t
            && !event_id_taken(s0.events@, pre[k].id) by {
            assert(pre[k] == evs[k]);
        }
        assert forall|a: int, b: int| 0 <= a < b < pre.len() implies (#[trigger] pre[a]).id != (#[trigger] pre[b]).id by {
            assert(pre[a] == evs[a] && pre[b] == evs[b]);
        }
    }
    lemma_history_last_writer_wins(s0, pre, now, mid, t);
    assert(e == evs[evs.len() - 1]);
    assert(!env_id_in(pre, e.id)) by {
        if env_id_in(pre, e.id) {
            let k = choose|k: int| 0 <= k < pre.len() && #[trigger] pre[k].id == e.id;
            assert(pre[k] == evs[k]);
        }
    }
    assert(!event_id_taken(mid.events@, e.id));
    assert(o == ApplyOutcome::Accepted);
    crate::events::lemma_log_push(mid.events@, s.events@);
    lemma_marks_after(mid, e, now, s);
    lemma_row_after(mid, e, now, s);
    assert forall|x: u128| #[trigger] env_id_in(evs, x) <==> env_id_in(pre, x) || e.id == x by {
        if env_id_in(pre, x) {
            let k = choose|k: int| 0 <= k < pre.len() && #[trigger] pre[k].id == x;
            assert(evs[k] == pre[k]);
        }
        if env_id_in(evs, x) {
            let k = choose|k: int| 0 <= k < evs.len() && #[trigger] evs[k].id == x;
            if k < pre.len() {
                assert(evs[k] == pre[k]);
            }
        }
        if e.id == x {
            assert(evs[evs.len() - 1].id == x);
        }
    }
    let wins = lww_applies(mid.applied@, t, e.id, e.created_at);
    let ap = mid.applied@;
    if pre.len() == 0 {
        assert(mid == s0);
    }
    let me = mark_for(e);
    if has_mark(ap, t) {
        let w = choose|w: int| 0 <= w < ap.len() && #[trigger] ap[w].task_id == t;
        lemma_has_mark_first(ap, t, w);
        let k = choose|k: int| first_mark(ap, t, k);
        assert forall|j: int| #[trigger] first_mark(ap, t, j) implies j == k by {
            lemma_first_mark_unique(ap, t, k, j);
        }
        lemma_mark_of(ap, t, k);
        let mm = ap[k];
        let m = winner(mm, me);
        assert(s.applied@ == ap.update(k, m));
        assert(first_mark(s.applied@, t, k));
        lemma_mark_of(s.applied@, t, k);
        assert(wins == later(e.created_at, e.id, mm.last_event_at, mm.last_event_id));
        assert forall|j: int| 0 <= j < evs.len() implies not_before(#[trigger] evs[j], m) by {
            if j < pre.len() {
                assert(evs[j] == pre[j]);
                assert(not_before(pre[j], mm));
            }
        }
        if wins {
            assert(m == me);
            assert(exists|j: int| 0 <= j < evs.len() && m == mark_for(#[trigger] evs[j])
                && forall|i: int| #[trigger] first_row(s.tasks@, t, i) ==> holds_snapshot(s.tasks@[i], evs[j].task->Valid_0,
                evs[j].event_type == TaskEventType::Deleted, now)) by {
                assert(m == mark_for(evs[evs.len() - 1]));
            }
        } else {
            assert(m == mm);
            assert(s.tasks@ == mid.tasks@);
            if !(mark_of(s0.applied@, t) == Some(mm) && mid.tasks@ == s0.tasks@) {
                let j = choose|j: int| 0 <= j < pre.len() && mm == mark_for(#[trigger] pre[j])
                    && forall|i: int| #[trigger] first_row(mid.tasks@, t, i) ==> holds_snapshot(mid.tasks@[i],
                    pre[j].task->Valid_0, pre[j].event_type == TaskEventType::Deleted, now);
                assert(evs[j] == pre[j]);
                assert(m == mark_for(evs[j]));
            }
        }
    } else {
        assert(pre.len() == 0);
        let n = ap.len() as int;
        assert(s.applied@ == ap.push(me));
        assert(first_mark(s.applied@, t, n));
        lemma_mark_of(s.applied@, t, n);
        assert(wins);
        assert(evs.len() == 1);
        assert(me == mark_for(evs[0]));
    }
}

} // verus!
