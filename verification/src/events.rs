//! The task event log: appending and reading it.

use vstd::prelude::*;
use crate::models::{Error, TaskEventType, EVENT_ORIGIN_LOCAL};
use crate::store::{TaskEvent, TaskStore, EventPayload, seqs_increasing};
use crate::text::{to_chars, from_chars};

verus! {

/// Rows returned by [`list_task_events`] when no limit is given.
pub const DEFAULT_LIMIT: u32 = 50;

/// Rows returned by [`list_task_events_since`] when no limit is given.
pub const DEFAULT_SINCE_LIMIT: u32 = 500;

/// Query filter for listing task events (newest first).
#[derive(Clone, Copy, Debug)]
pub struct ListTaskEventsInput {
    /// The one task whose events to list; all of them when `None`.
    pub task_id: Option<u128>,
    /// Max rows to return (newest first). Defaults to 50 when `None`.
    pub limit: Option<u32>,
}

/// Query filter for listing task events after a sequence cursor (oldest first).
#[derive(Clone, Copy, Debug)]
pub struct ListTaskEventsSinceInput {
    /// Return events with `seq > after_seq`. Use `0` to read from the start.
    pub after_seq: i64,
    /// Max rows to return (oldest first). Defaults to 500 when `None`.
    pub limit: Option<u32>,
}

/// The sequence number the next event gets: one past the last, or 1.
pub open spec fn next_seq(events: Seq<TaskEvent>) -> int {
    if events.len() == 0 {
        1
    } else {
        events.last().seq + 1
    }
}

/// Some event has id `id`.
pub open spec fn event_id_taken(events: Seq<TaskEvent>, id: u128) -> bool {
    exists|k: int| 0 <= k < events.len() && #[trigger] events[k].id == id
}

/// Room for one more event with id `id`: the sequence number it gets, or
/// the error of the log (sequence exhausted, or the id already used).
pub fn event_slot(events: &Vec<TaskEvent>, id: u128) -> (r: Result<i64, Error>)
    ensures
        r matches Ok(s) ==> s == next_seq(events@) && !event_id_taken(events@, id),
        r is Ok <==> next_seq(events@) <= i64::MAX && !event_id_taken(events@, id),
        r matches Err(e) ==> e is Database,
{
    let mut k: usize = 0;
    while k < events.len()
        invariant
            k <= events@.len(),
            forall|j: int| 0 <= j < k ==> #[trigger] events@[j].id != id,
        decreases events@.len() - k,
    {
        if events[k].id == id {
            return Err(Error::Database(from_chars(&to_chars("UNIQUE constraint failed: task_events.id"))));
        }
        k += 1;
    }
    if events.len() == 0 {
        Ok(1)
    } else {
        let last = events[events.len() - 1].seq;
        if last == i64::MAX {
            Err(Error::Database(from_chars(&to_chars("database or disk is full"))))
        } else {
            Ok(last + 1)
        }
    }
}

/// The origin a store stamps on its own events: its device id once it has
/// one, else `local`.
pub open spec fn local_origin(s: TaskStore) -> Seq<char> {
    match s.device_id {
        Some(d) => d@,
        None => EVENT_ORIGIN_LOCAL@,
    }
}

/// Appends an event at sequence `seq` (the next one), keeping the log
/// ordered.
pub fn push_event(
    store: &mut TaskStore,
    seq: i64,
    id: u128,
    task_id: u128,
    event_type: TaskEventType,
    payload: EventPayload,
    now: i64,
)
    requires
        old(store).wf(),
        seq == next_seq(old(store).events@),
    ensures
        final(store).wf(),
        final(store).tasks@ == old(store).tasks@,
        final(store).tags@ == old(store).tags@,
        final(store).applied@ == old(store).applied@,
        final(store).events@.len() == old(store).events@.len() + 1,
        final(store).events@.drop_last() == old(store).events@,
        final(store).events@.last().seq == seq,
        final(store).events@.last().id == id,
        final(store).events@.last().task_id == task_id,
        final(store).events@.last().event_type == event_type,
        final(store).events@.last().payload == payload,
        final(store).events@.last().origin@ == local_origin(*old(store)),
        final(store).device_id == old(store).device_id,
        final(store).events@.last().created_at == now,
{
    let origin = match &store.device_id {
        Some(d) => d.clone(),
        None => from_chars(&to_chars(EVENT_ORIGIN_LOCAL)),
    };
    let ev = TaskEvent {
        seq,
        id,
        task_id,
        event_type,
        payload,
        origin,
        created_at: now,
    };
    let ghost before = store.events@;
    store.events.push(ev);
    proof {
        let e = store.events@;
        assert(e.drop_last() == before);
        assert forall|i: int, j: int| 0 <= i < j < e.len() implies #[trigger] e[i].seq < #[trigger] e[j].seq by {
            if j == e.len() - 1 && i < j {
                assert(before[i].seq <= before.last().seq);
            }
        }
    }
}

/// After one more event, the next sequence number is one past its own, and
/// the ids taken are the earlier ones and its own.
pub proof fn lemma_log_push(before: Seq<TaskEvent>, after: Seq<TaskEvent>)
    requires
        after.len() == before.len() + 1,
        after.drop_last() == before,
    ensures
        next_seq(after) == after.last().seq + 1,
        forall|x: u128| #[trigger] event_id_taken(after, x) <==> event_id_taken(before, x) || after.last().id == x,
{
    assert forall|x: u128| #[trigger] event_id_taken(after, x) <==> event_id_taken(before, x) || after.last().id == x by {
        if event_id_taken(before, x) {
            let k = choose|k: int| 0 <= k < before.len() && #[trigger] before[k].id == x;
            assert(after[k] == before[k]);
        }
        if event_id_taken(after, x) {
            let k = choose|k: int| 0 <= k < after.len() && #[trigger] after[k].id == x;
            if k < before.len() {
                assert(after[k] == before[k]);
            }
        }
        if after.last().id == x {
            assert(after[after.len() - 1].id == x);
        }
    }
}

/// Room in the log for one more event with id `id`.
pub open spec fn log_room(events: Seq<TaskEvent>, id: u128) -> bool {
    next_seq(events) <= i64::MAX && !event_id_taken(events, id)
}

/// Room in the log for two more events, `first` and then `second`.
pub open spec fn log_room_two(events: Seq<TaskEvent>, first: u128, second: u128) -> bool {
    &&& next_seq(events) + 1 <= i64::MAX
    &&& !event_id_taken(events, first)
    &&& !event_id_taken(events, second)
    &&& first != second
}

/// Events for `task` (all when `None`), newest first.
pub open spec fn newest_first(events: Seq<TaskEvent>, task: Option<u128>) -> Seq<TaskEvent>
    decreases events.len(),
{
    if events.len() == 0 {
        events
    } else {
        let rest = newest_first(events.drop_last(), task);
        match task {
            Some(t) => if events.last().task_id == t {
                seq![events.last()] + rest
            } else {
                rest
            },
            None => seq![events.last()] + rest,
        }
    }
}

/// Events with a sequence number above `after`, oldest first.
pub open spec fn events_after(events: Seq<TaskEvent>, after: i64) -> Seq<TaskEvent>
    decreases events.len(),
{
    if events.len() == 0 {
        events
    } else if events.last().seq > after {
        events_after(events.drop_last(), after).push(events.last())
    } else {
        events_after(events.drop_last(), after)
    }
}

/// The first `limit` items of `s` (all when it is shorter).
pub open spec fn at_most<T>(s: Seq<T>, limit: u32) -> Seq<T> {
    if s.len() <= limit {
        s
    } else {
        s.take(limit as int)
    }
}

/// Task events newest first, for one task or all, at most `limit` (50 when
/// none is given).
pub fn list_task_events<'a>(store: &'a TaskStore, input: &ListTaskEventsInput) -> (r: Vec<&'a TaskEvent>)
    ensures
        r@.len() == at_most(newest_first(store.events@, input.task_id), match input.limit {
            Some(l) => l,
            None => DEFAULT_LIMIT,
        }).len(),
        forall|k: int| 0 <= k < r@.len() ==> *(#[trigger] r@[k]) == at_most(newest_first(store.events@, input.task_id), match input.limit {
            Some(l) => l,
            None => DEFAULT_LIMIT,
        })[k],
{
    let limit: u32 = match input.limit {
        Some(l) => l,
        None => DEFAULT_LIMIT,
    };
    let ghost all = newest_first(store.events@, input.task_id);
    let mut r: Vec<&'a TaskEvent> = Vec::new();
    let mut i: usize = store.events.len();
    assert(store.events@.subrange(0, i as int) == store.events@);
    assert(r@.map_values(|e: &TaskEvent| *e) + all == all);
    while i > 0 && r.len() < limit as usize
        invariant
            i <= store.events@.len(),
            r@.len() <= limit,
            all == newest_first(store.events@, input.task_id),
            newest_first(store.events@, input.task_id) == r@.map_values(|e: &TaskEvent| *e) + newest_first(store.events@.subrange(0, i as int), input.task_id),
        decreases i,
    {
        let ghost pre = store.events@.subrange(0, i as int);
        assert(pre.drop_last() == store.events@.subrange(0, i - 1));
        let ev = &store.events[i - 1];
        let keep = match input.task_id {
            Some(t) => ev.task_id == t,
            None => true,
        };
        if keep {
            let ghost old_r = r@;
            r.push(ev);
            assert(r@.map_values(|e: &TaskEvent| *e) == old_r.map_values(|e: &TaskEvent| *e).push(*ev));
            assert(r@.map_values(|e: &TaskEvent| *e) + newest_first(store.events@.subrange(0, i - 1), input.task_id)
                == old_r.map_values(|e: &TaskEvent| *e) + (seq![*ev] + newest_first(store.events@.subrange(0, i - 1), input.task_id)));
        }
        i -= 1;
    }
    proof {
        let m = r@.map_values(|e: &TaskEvent| *e);
        if i == 0 {
            assert(store.events@.subrange(0, 0).len() == 0);
            assert(all == m + Seq::<TaskEvent>::empty());
            assert(all == m);
        } else {
            assert(r@.len() == limit);
        }
        assert forall|k: int| 0 <= k < r@.len() implies *(#[trigger] r@[k]) == at_most(all, limit)[k] by {
            assert(m[k] == *r@[k]);
            assert(all[k] == m[k]);
        }
    }
    r
}

/// Task events with a sequence number above `after_seq`, oldest first, at
/// most `limit` (500 when none is given).
pub fn list_task_events_since<'a>(store: &'a TaskStore, input: &ListTaskEventsSinceInput) -> (r: Vec<&'a TaskEvent>)
    ensures
        r@.len() == at_most(events_after(store.events@, input.after_seq), match input.limit {
            Some(l) => l,
            None => DEFAULT_SINCE_LIMIT,
        }).len(),
        forall|k: int| 0 <= k < r@.len() ==> *(#[trigger] r@[k]) == at_most(events_after(store.events@, input.after_seq), match input.limit {
            Some(l) => l,
            None => DEFAULT_SINCE_LIMIT,
        })[k],
{
    let limit: u32 = match input.limit {
        Some(l) => l,
        None => DEFAULT_SINCE_LIMIT,
    };
    let ghost all = events_after(store.events@, input.after_seq);
    let mut r: Vec<&'a TaskEvent> = Vec::new();
    let mut i: usize = 0;
    while i < store.events.len() && r.len() < limit as usize
        invariant
            i <= store.events@.len(),
            r@.len() <= limit,
            all == events_after(store.events@, input.after_seq),
            r@.map_values(|e: &TaskEvent| *e) == events_after(store.events@.subrange(0, i as int), input.after_seq),
        decreases store.events@.len() - i,
    {
        assert(store.events@.subrange(0, i + 1).drop_last() == store.events@.subrange(0, i as int));
        let ev = &store.events[i];
        if ev.seq > input.after_seq {
            let ghost old_r = r@;
            r.push(ev);
            assert(r@.map_values(|e: &TaskEvent| *e) == old_r.map_values(|e: &TaskEvent| *e).push(*ev));
        }
        i += 1;
    }
    proof {
        let m = r@.map_values(|e: &TaskEvent| *e);
        lemma_events_after_prefix(store.events@, i as int, input.after_seq);
        if i == store.events@.len() {
            assert(store.events@.subrange(0, i as int) == store.events@);
        } else {
            assert(r@.len() == limit);
        }
        assert forall|k: int| 0 <= k < r@.len() implies *(#[trigger] r@[k]) == at_most(all, limit)[k] by {
            assert(m[k] == *r@[k]);
        }
    }
    r
}

/// Filtering a prefix gives a prefix of the filtered log.
pub proof fn lemma_events_after_prefix(events: Seq<TaskEvent>, i: int, after: i64)
    requires
        0 <= i <= events.len(),
    ensures
        events_after(events.subrange(0, i), after).len() <= events_after(events, after).len(),
        forall|k: int| 0 <= k < events_after(events.subrange(0, i), after).len() ==>
            #[trigger] events_after(events.subrange(0, i), after)[k] == events_after(events, after)[k],
    decreases events.len() - i,
{
    if i < events.len() {
        lemma_events_after_prefix(events, i + 1, after);
        let p1 = events.subrange(0, i + 1);
        assert(p1.drop_last() == events.subrange(0, i));
        assert(p1.last() == events[i]);
        let a = events_after(events.subrange(0, i), after);
        let b = events_after(p1, after);
        assert(b == a || b == a.push(events[i]));
        assert forall|k: int| 0 <= k < a.len() implies #[trigger] a[k] == events_after(events, after)[k] by {
            assert(a[k] == b[k]);
        }
    } else {
        assert(events.subrange(0, i) == events);
    }
}

/// Highest event sequence number, or 0 when the log is empty.
pub fn latest_event_seq(store: &TaskStore) -> (r: i64)
    requires
        store.wf(),
    ensures
        store.events@.len() == 0 ==> r == 0,
        store.events@.len() > 0 ==> r == store.events@.last().seq,
        forall|k: int| 0 <= k < store.events@.len() ==> #[trigger] store.events@[k].seq <= r,
{
    if store.events.len() == 0 {
        0
    } else {
        store.events[store.events.len() - 1].seq
    }
}

} // verus!
