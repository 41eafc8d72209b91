//! Tasks: reading, creating, changing status, rescheduling, partial updates
//! and soft deletion, each recorded in the task event log.

use vstd::prelude::*;
use crate::models::{Error, TaskStatus};
use crate::store::{
    Tag, TaskRecord, TaskStore, Task, tags_sorted, tag_key, tag_at_key, tag_id_taken, copy_tag,
    ensure_tag_in, tag_name_required, nocase_key,
};
use crate::tags::{ids_contain, copy_opt, current_time};
use crate::text::{trim, trim_str, lowercase, lowercase_chars, to_chars};
use crate::order::{key_order, key_order_exec, views};
use crate::cron::{cron_normal, opt_view, normalize_cron};
use crate::events::{next_seq, event_id_taken, event_slot, push_event, local_origin, log_room, log_room_two, lemma_log_push};
use crate::store::{EventPayload, FieldChange, FieldValue, FieldView, TaskField, change_is, opt_text, ChangeView, change_view, change_views};
use crate::models::TaskEventType;
use crate::ids::new_id;

verus! {

/// The tags of `tags` whose ids are linked in `ids`, in the order of `tags`.
pub open spec fn pick_tags(tags: Seq<Tag>, ids: Seq<u128>) -> Seq<Tag>
    decreases tags.len(),
{
    if tags.len() == 0 {
        tags
    } else if ids.contains(tags.last().id) {
        pick_tags(tags.drop_last(), ids).push(tags.last())
    } else {
        pick_tags(tags.drop_last(), ids)
    }
}

/// `t` shows row `rec` with its tags taken from `tags`.
pub open spec fn shows(t: Task, rec: TaskRecord, tags: Seq<Tag>) -> bool {
    &&& t.id == rec.id
    &&& t.title == rec.title
    &&& t.description == rec.description
    &&& t.status == rec.status
    &&& t.due_at == rec.due_at
    &&& t.repeat_cron == rec.repeat_cron
    &&& t.created_at == rec.created_at
    &&& t.updated_at == rec.updated_at
    &&& t.deleted_at == rec.deleted_at
    &&& t.tags@ == pick_tags(tags, rec.tag_ids@)
}

/// The tags linked by `ids`, in the order of `tags`.
pub fn tags_for(tags: &Vec<Tag>, ids: &Vec<u128>) -> (r: Vec<Tag>)
    ensures
        r@ == pick_tags(tags@, ids@),
{
    let mut r: Vec<Tag> = Vec::new();
    let mut i: usize = 0;
    while i < tags.len()
        invariant
            i <= tags@.len(),
            r@ == pick_tags(tags@.subrange(0, i as int), ids@),
        decreases tags@.len() - i,
    {
        assert(tags@.subrange(0, i + 1).drop_last() == tags@.subrange(0, i as int));
        if ids_contain(ids, tags[i].id) {
            r.push(copy_tag(&tags[i]));
        }
        i += 1;
    }
    assert(tags@.subrange(0, tags@.len() as int) == tags@);
    r
}

/// The task that row `rec` shows, with tags from `tags`.
pub fn task_of(rec: &TaskRecord, tags: &Vec<Tag>) -> (r: Task)
    ensures
        shows(r, *rec, tags@),
{
    Task {
        id: rec.id,
        title: rec.title.clone(),
        description: copy_opt(&rec.description),
        status: rec.status,
        due_at: rec.due_at,
        repeat_cron: copy_opt(&rec.repeat_cron),
        created_at: rec.created_at,
        updated_at: rec.updated_at,
        deleted_at: rec.deleted_at,
        tags: tags_for(tags, &rec.tag_ids),
    }
}

/// `i` is the first row of a live (not deleted) task with id `id`.
pub open spec fn first_live(tasks: Seq<TaskRecord>, id: u128, i: int) -> bool {
    &&& 0 <= i < tasks.len()
    &&& tasks[i].id == id
    &&& tasks[i].deleted_at is None
    &&& forall|j: int| 0 <= j < i ==> !(#[trigger] tasks[j].id == id && tasks[j].deleted_at is None)
}

/// Some live task has id `id`.
pub open spec fn has_live(tasks: Seq<TaskRecord>, id: u128) -> bool {
    exists|i: int| 0 <= i < tasks.len() && #[trigger] tasks[i].id == id && tasks[i].deleted_at is None
}

/// There is at most one first live row.
pub proof fn lemma_first_live_unique(tasks: Seq<TaskRecord>, id: u128, a: int, b: int)
    requires
        first_live(tasks, id, a),
        first_live(tasks, id, b),
    ensures
        a == b,
{
    if a < b {
        assert(tasks[a].id == id && tasks[a].deleted_at is None);
    } else if b < a {
        assert(tasks[b].id == id && tasks[b].deleted_at is None);
    }
}

/// A live row with id `id` at `k` means some row is the first live one.
pub proof fn lemma_has_live_first(tasks: Seq<TaskRecord>, id: u128, k: int)
    requires
        0 <= k < tasks.len(),
        tasks[k].id == id,
        tasks[k].deleted_at is None,
    ensures
        exists|i: int| #[trigger] first_live(tasks, id, i),
    decreases k,
{
    if forall|j: int| 0 <= j < k ==> !(#[trigger] tasks[j].id == id && tasks[j].deleted_at is None) {
        assert(first_live(tasks, id, k));
    } else {
        let j = choose|j: int| 0 <= j < k && #[trigger] tasks[j].id == id && tasks[j].deleted_at is None;
        lemma_has_live_first(tasks, id, j);
    }
}

/// The row of the live task with id `id`.
pub fn find_live(tasks: &Vec<TaskRecord>, id: u128) -> (r: Option<usize>)
    ensures
        r matches Some(i) ==> first_live(tasks@, id, i as int),
        r is None <==> !has_live(tasks@, id),
{
    let mut i: usize = 0;
    while i < tasks.len()
        invariant
            i <= tasks@.len(),
            forall|j: int| 0 <= j < i ==> !(#[trigger] tasks@[j].id == id && tasks@[j].deleted_at is None),
        decreases tasks@.len() - i,
    {
        if tasks[i].id == id && tasks[i].deleted_at.is_none() {
            return Some(i);
        }
        i += 1;
    }
    None
}

/// The live task with id `id`; a deleted or unknown id is an error that
/// names it.
pub fn get_task(store: &TaskStore, id: u128) -> (r: Result<Task, Error>)
    ensures
        r is Ok <==> has_live(store.tasks@, id),
        r matches Ok(t) ==> exists|i: int| first_live(store.tasks@, id, i) && shows(t, store.tasks@[i], store.tags@),
        r matches Err(e) ==> (e matches Error::TaskNotFound(m) && m@ == crate::ids::uuid_text(id)),
{
    match find_live(&store.tasks, id) {
        Some(i) => Ok(task_of(&store.tasks[i], &store.tags)),
        None => Err(Error::TaskNotFound(crate::ids::id_string(id))),
    }
}


/// Position in `order` (row indices) before the first row due after `d`.
pub open spec fn due_pos(tasks: Seq<TaskRecord>, order: Seq<usize>, d: i64) -> int
    decreases order.len(),
{
    if order.len() == 0 {
        0
    } else if tasks[order[0] as int].due_at > d {
        0
    } else {
        1 + due_pos(tasks, order.drop_first(), d)
    }
}

/// The live rows among the first `n`, ordered by due time; rows due at the
/// same time keep their stored order.
pub open spec fn live_order(tasks: Seq<TaskRecord>, n: int) -> Seq<usize>
    decreases n,
{
    if n <= 0 {
        Seq::empty()
    } else {
        let o = live_order(tasks, n - 1);
        if tasks[n - 1].deleted_at is None {
            o.insert(due_pos(tasks, o, tasks[n - 1].due_at), (n - 1) as usize)
        } else {
            o
        }
    }
}

/// The first position whose row is due after `d`.
proof fn lemma_due_pos(tasks: Seq<TaskRecord>, order: Seq<usize>, d: i64, k: int)
    requires
        0 <= k <= order.len(),
        forall|j: int| 0 <= j < k ==> tasks[#[trigger] order[j] as int].due_at <= d,
        k < order.len() ==> tasks[order[k] as int].due_at > d,
    ensures
        due_pos(tasks, order, d) == k,
    decreases k,
{
    if k > 0 {
        assert(tasks[order[0] as int].due_at <= d);
        let rest = order.drop_first();
        assert forall|j: int| 0 <= j < k - 1 implies tasks[#[trigger] rest[j] as int].due_at <= d by {
            assert(rest[j] == order[j + 1]);
        }
        if k - 1 < rest.len() {
            assert(rest[k - 1] == order[k]);
        }
        lemma_due_pos(tasks, rest, d, k - 1);
    }
}

/// Row indices of the live tasks, ordered by due time (ties in stored order).
pub fn live_order_exec(tasks: &Vec<TaskRecord>) -> (r: Vec<usize>)
    ensures
        r@ == live_order(tasks@, tasks@.len() as int),
{
    let mut order: Vec<usize> = Vec::new();
    let mut n: usize = 0;
    while n < tasks.len()
        invariant
            n <= tasks@.len(),
            order@ == live_order(tasks@, n as int),
            forall|j: int| 0 <= j < order@.len() ==> #[trigger] order@[j] < n,
        decreases tasks@.len() - n,
    {
        if tasks[n].deleted_at.is_none() {
            let d = tasks[n].due_at;
            let mut k: usize = 0;
            while k < order.len() && tasks[order[k]].due_at <= d
                invariant
                    k <= order@.len(),
                    n < tasks@.len(),
                    forall|j: int| 0 <= j < order@.len() ==> #[trigger] order@[j] < n,
                    forall|j: int| 0 <= j < k ==> tasks@[#[trigger] order@[j] as int].due_at <= d,
                decreases order@.len() - k,
            {
                k += 1;
            }
            proof {
                lemma_due_pos(tasks@, order@, d, k as int);
            }
            order.insert(k, n);
        }
        n += 1;
    }
    order
}

/// All live tasks, ordered by due time (ties in stored order).
pub fn list_tasks(store: &TaskStore) -> (r: Vec<Task>)
    ensures
        r@.len() == live_order(store.tasks@, store.tasks@.len() as int).len(),
        forall|k: int| 0 <= k < r@.len() ==> shows(#[trigger] r@[k],
            store.tasks@[live_order(store.tasks@, store.tasks@.len() as int)[k] as int], store.tags@),
{
    let order = live_order_exec(&store.tasks);
    proof {
        assert(store.tasks@.len() == store.tasks.len());
        lemma_live_order_rows(store.tasks@, store.tasks@.len() as int);
    }
    let mut r: Vec<Task> = Vec::new();
    let mut k: usize = 0;
    while k < order.len()
        invariant
            k <= order@.len(),
            order@ == live_order(store.tasks@, store.tasks@.len() as int),
            forall|j: int| 0 <= j < order@.len() ==> #[trigger] order@[j] < store.tasks@.len(),
            r@.len() == k,
            forall|j: int| 0 <= j < k ==> shows(#[trigger] r@[j], store.tasks@[order@[j] as int], store.tags@),
        decreases order@.len() - k,
    {
        r.push(task_of(&store.tasks[order[k]], &store.tags));
        k += 1;
    }
    r
}

/// The ordering lists only rows below `n`, each live.
pub proof fn lemma_live_order_rows(tasks: Seq<TaskRecord>, n: int)
    requires
        0 <= n <= tasks.len(),
        tasks.len() <= usize::MAX,
    ensures
        forall|j: int| 0 <= j < live_order(tasks, n).len() ==> {
            &&& #[trigger] live_order(tasks, n)[j] < n
            &&& tasks[live_order(tasks, n)[j] as int].deleted_at is None
        },
    decreases n,
{
    if n > 0 {
        lemma_live_order_rows(tasks, n - 1);
        let o = live_order(tasks, n - 1);
        if tasks[n - 1].deleted_at is None {
            lemma_due_pos_range(tasks, o, tasks[n - 1].due_at);
            let p = due_pos(tasks, o, tasks[n - 1].due_at);
            let o2 = o.insert(p, (n - 1) as usize);
            assert forall|j: int| 0 <= j < o2.len() implies #[trigger] o2[j] < n && tasks[o2[j] as int].deleted_at is None by {
                if j < p {
                    assert(o2[j] == o[j]);
                } else if j > p {
                    assert(o2[j] == o[j - 1]);
                } else {
                    assert(o2[j] == (n - 1) as usize);
                }
            }
        }
    }
}

/// The insertion position lies within the ordering.
pub proof fn lemma_due_pos_range(tasks: Seq<TaskRecord>, order: Seq<usize>, d: i64)
    ensures
        0 <= due_pos(tasks, order, d) <= order.len(),
    decreases order.len(),
{
    if order.len() > 0 {
        lemma_due_pos_range(tasks, order.drop_first(), d);
    }
}

/// Listed tasks come in order of due time.
pub proof fn lemma_live_order_sorted(tasks: Seq<TaskRecord>, n: int)
    requires
        0 <= n <= tasks.len(),
        tasks.len() <= usize::MAX,
    ensures
        forall|a: int, b: int| 0 <= a < b < live_order(tasks, n).len() ==>
            tasks[#[trigger] live_order(tasks, n)[a] as int].due_at <= tasks[#[trigger] live_order(tasks, n)[b] as int].due_at,
    decreases n,
{
    if n > 0 {
        lemma_live_order_sorted(tasks, n - 1);
        lemma_live_order_rows(tasks, n - 1);
        let o = live_order(tasks, n - 1);
        if tasks[n - 1].deleted_at is None {
            let d = tasks[n - 1].due_at;
            lemma_due_pos_range(tasks, o, d);
            let p = due_pos(tasks, o, d);
            lemma_due_pos_props(tasks, o, d);
            let o2 = o.insert(p, (n - 1) as usize);
            assert forall|a: int, b: int| 0 <= a < b < o2.len() implies
                tasks[#[trigger] o2[a] as int].due_at <= tasks[#[trigger] o2[b] as int].due_at by {
                if b < p {
                    assert(o2[a] == o[a] && o2[b] == o[b]);
                } else if b == p {
                    assert(o2[a] == o[a]);
                    assert(o2[b] == (n - 1) as usize);
                } else if a == p {
                    assert(o2[a] == (n - 1) as usize);
                    assert(o2[b] == o[b - 1]);
                    if b - 1 > p {
                        assert(tasks[o[p] as int].due_at <= tasks[o[b - 1] as int].due_at);
                    }
                } else if a < p {
                    assert(o2[a] == o[a] && o2[b] == o[b - 1]);
                } else {
                    assert(o2[a] == o[a - 1] && o2[b] == o[b - 1]);
                }
            }
        }
    }
}

/// Rows before the insertion position are due no later than `d`; the row at
/// it, if any, is due later.
pub proof fn lemma_due_pos_props(tasks: Seq<TaskRecord>, order: Seq<usize>, d: i64)
    ensures
        forall|j: int| 0 <= j < due_pos(tasks, order, d) ==> tasks[#[trigger] order[j] as int].due_at <= d,
        due_pos(tasks, order, d) < order.len() ==> tasks[order[due_pos(tasks, order, d)] as int].due_at > d,
    decreases order.len(),
{
    if order.len() > 0 && tasks[order[0] as int].due_at <= d {
        let rest = order.drop_first();
        lemma_due_pos_props(tasks, rest, d);
        lemma_due_pos_range(tasks, rest, d);
        assert forall|j: int| 0 <= j < due_pos(tasks, order, d) implies tasks[#[trigger] order[j] as int].due_at <= d by {
            if j > 0 {
                assert(order[j] == rest[j - 1]);
            }
        }
        if due_pos(tasks, order, d) < order.len() {
            assert(order[due_pos(tasks, order, d)] == rest[due_pos(tasks, rest, d)]);
        }
    }
}


/// The key by which a tag name is looked up: trimmed, ASCII case folded.
pub open spec fn name_key(n: String) -> Seq<char> {
    nocase_key(trim(n@))
}

/// Some tag of `t` has key `key` and is linked in `links`.
pub open spec fn linked_key(t: Seq<Tag>, links: Seq<u128>, key: Seq<char>) -> bool {
    exists|x: Tag| #[trigger] t.contains(x) && tag_key(x) == key && links.contains(x.id)
}

/// Link `l` is the id of a tag of `t` named by one of the first `n` names.
pub open spec fn link_named(t: Seq<Tag>, names: Seq<String>, n: int, l: u128) -> bool {
    exists|x: Tag, k: int| #[trigger] t.contains(x) && 0 <= k < n && x.id == l && tag_key(x) == name_key(#[trigger] names[k])
}

/// `x`, absent from `old`, was added for name `k`: with its id, its trimmed
/// spelling, at `now`, and no earlier name has its key.
pub open spec fn added_for(old: Seq<Tag>, x: Tag, names: Seq<String>, ids: Seq<u128>, now: i64, k: int) -> bool {
    &&& 0 <= k < names.len()
    &&& x.id == ids[k]
    &&& x.name@ == trim(names[k]@)
    &&& tag_key(x) == name_key(names[k])
    &&& x.created_at == now
    &&& x.updated_at == now
    &&& forall|j: int| 0 <= j < k ==> name_key(#[trigger] names[j]) != name_key(names[k])
}

/// `new` and `links` are what resolving the first `n` names against `old`
/// gives: `old` keeps its tags, each name's tag is linked, every link names
/// one of them once, and each added tag was added for a name whose key no
/// earlier tag had.
pub open spec fn resolved(
    old: Seq<Tag>,
    new: Seq<Tag>,
    names: Seq<String>,
    ids: Seq<u128>,
    now: i64,
    links: Seq<u128>,
    n: int,
) -> bool {
    &&& tags_sorted(new)
    &&& forall|x: Tag| #[trigger] old.contains(x) ==> new.contains(x)
    &&& forall|k: int| 0 <= k < n ==> linked_key(new, links, name_key(#[trigger] names[k]))
    &&& forall|a: int| 0 <= a < links.len() ==> link_named(new, names, n, #[trigger] links[a])
    &&& forall|a: int, b: int| 0 <= a < b < links.len() ==> #[trigger] links[a] != #[trigger] links[b]
    &&& forall|x: Tag| #[trigger] new.contains(x) && !old.contains(x) ==> (forall|y: Tag|
        old.contains(y) ==> tag_key(y) != tag_key(x)) && exists|k: int| 0 <= k < n && #[trigger] added_for(old, x, names, ids, now, k)
}

/// Ids usable for new tags: none taken in `old`, no two alike.
pub open spec fn ids_fresh(old: Seq<Tag>, ids: Seq<u128>) -> bool {
    &&& forall|k: int| 0 <= k < ids.len() ==> !tag_id_taken(old, #[trigger] ids[k])
    &&& forall|a: int, b: int| 0 <= a < b < ids.len() ==> #[trigger] ids[a] != #[trigger] ids[b]
}

/// A copy of a tag list.
pub fn copy_tags(tags: &Vec<Tag>) -> (r: Vec<Tag>)
    ensures
        r@ == tags@,
{
    let mut r: Vec<Tag> = Vec::new();
    let mut i: usize = 0;
    while i < tags.len()
        invariant
            i <= tags@.len(),
            r@ == tags@.subrange(0, i as int),
        decreases tags@.len() - i,
    {
        r.push(copy_tag(&tags[i]));
        assert(tags@.subrange(0, i + 1) == tags@.subrange(0, i as int).push(tags@[i as int]));
        i += 1;
    }
    assert(tags@.subrange(0, tags@.len() as int) == tags@);
    r
}

/// Resolves tag names in order against `tags`: each names an existing tag
/// (trimmed, ASCII case ignored) or adds one with the id at its position in
/// `ids`. Gives the new tag list, the distinct ids linked and the tag each
/// name resolved to, or the first error: a blank name, or an id already in
/// use.
pub fn resolve_tags(tags: &Vec<Tag>, names: &Vec<String>, ids: &Vec<u128>, now: i64) -> (r: Result<(Vec<Tag>, Vec<u128>, Vec<Tag>), Error>)
    requires
        tags_sorted(tags@),
        ids@.len() == names@.len(),
    ensures
        r matches Ok((t, l, per)) ==> resolved(tags@, t@, names@, ids@, now, l@, names@.len() as int)
            && (forall|k: int| 0 <= k < names@.len() ==> trim(#[trigger] names@[k]@).len() > 0)
            && per@.len() == names@.len()
            && (forall|k: int| 0 <= k < per@.len() ==> t@.contains(#[trigger] per@[k]) && tag_key(per@[k]) == name_key(names@[k])),
        r matches Err(e) ==> ((e matches Error::Message(m) && m@ == tag_name_required()
            && exists|k: int| 0 <= k < names@.len() && trim(#[trigger] names@[k]@).len() == 0) || e is Database),
        (forall|k: int| 0 <= k < names@.len() ==> trim(#[trigger] names@[k]@).len() > 0) && ids_fresh(tags@, ids@) ==> r is Ok,
{
    let mut work = copy_tags(tags);
    let mut links: Vec<u128> = Vec::new();
    let mut per: Vec<Tag> = Vec::new();
    let mut i: usize = 0;
    while i < names.len()
        invariant
            i <= names@.len(),
            ids@.len() == names@.len(),
            resolved(tags@, work@, names@, ids@, now, links@, i as int),
            forall|k: int| 0 <= k < i ==> trim(#[trigger] names@[k]@).len() > 0,
            per@.len() == i,
            forall|k: int| 0 <= k < i ==> work@.contains(#[trigger] per@[k]) && tag_key(per@[k]) == name_key(names@[k]),
        decreases names@.len() - i,
    {
        let ghost before = work@;
        let ghost key = name_key(names@[i as int]);
        let res = ensure_tag_in(&mut work, names[i].as_str(), ids[i], now);
        match res {
            Err(e) => {
                proof {
                    if !(e is Database) {
                        assert(trim(names@[i as int]@).len() == 0);
                    }
                    if (forall|k: int| 0 <= k < names@.len() ==> trim(#[trigger] names@[k]@).len() > 0) && ids_fresh(tags@, ids@) {
                        assert(trim(names@[i as int]@).len() > 0);
                        lemma_id_not_taken(tags@, before, names@, ids@, now, links@, i as int);
                        assert(false);
                    }
                }
                return Err(e);
            },
            Ok(t) => {
                proof {
                    assert(trim(names@[i as int]@).len() > 0);
                    assert(work@.contains(t)) by {
                        if exists|k: int| tag_at_key(before, key, k) {
                            let k = choose|k: int| tag_at_key(before, key, k);
                            assert(before[k] == t);
                        }
                    }
                    assert(tag_key(t) == key) by {
                        if exists|k: int| tag_at_key(before, key, k) {
                            let k = choose|k: int| tag_at_key(before, key, k);
                            assert(before[k] == t);
                        }
                    }
                }
                let ghost old_links = links@;
                if !ids_contain(&links, t.id) {
                    links.push(t.id);
                }
                proof {
                    lemma_resolve_step(tags@, before, work@, names@, ids@, now, old_links, links@, i as int, t);
                }
                let ghost old_per = per@;
                per.push(copy_tag(&t));
                proof {
                    assert forall|k: int| 0 <= k < i + 1 implies work@.contains(#[trigger] per@[k]) && tag_key(per@[k]) == name_key(names@[k]) by {
                        if k < i {
                            assert(per@[k] == old_per[k]);
                            assert(before.contains(old_per[k]));
                        }
                    }
                }
            },
        }
        i += 1;
    }
    Ok((work, links, per))
}

/// With fresh ids, the id for name `i` is free when that name adds a tag.
proof fn lemma_id_not_taken(
    old: Seq<Tag>,
    work: Seq<Tag>,
    names: Seq<String>,
    ids: Seq<u128>,
    now: i64,
    links: Seq<u128>,
    i: int,
)
    requires
        resolved(old, work, names, ids, now, links, i),
        ids_fresh(old, ids),
        0 <= i < ids.len(),
        ids.len() == names.len(),
    ensures
        !tag_id_taken(work, ids[i]),
{
    if tag_id_taken(work, ids[i]) {
        let j = choose|j: int| 0 <= j < work.len() && #[trigger] work[j].id == ids[i];
        let x = work[j];
        assert(work.contains(x));
        if old.contains(x) {
            let m = choose|m: int| 0 <= m < old.len() && old[m] == x;
            assert(old[m].id == ids[i]);
            assert(tag_id_taken(old, ids[i]));
        } else {
            let k = choose|k: int| 0 <= k < i && #[trigger] added_for(old, x, names, ids, now, k);
            assert(ids[k] != ids[i]);
        }
    }
}

/// One more name resolved to tag `t` keeps the resolution invariant.
proof fn lemma_resolve_step(
    old: Seq<Tag>,
    before: Seq<Tag>,
    after: Seq<Tag>,
    names: Seq<String>,
    ids: Seq<u128>,
    now: i64,
    links0: Seq<u128>,
    links1: Seq<u128>,
    i: int,
    t: Tag,
)
    requires
        resolved(old, before, names, ids, now, links0, i),
        0 <= i < names.len(),
        ids.len() == names.len(),
        tags_sorted(after),
        after.contains(t),
        tag_key(t) == name_key(names[i]),
        links1 == (if links0.contains(t.id) { links0 } else { links0.push(t.id) }),
        forall|x: Tag| #[trigger] after.contains(x) ==> before.contains(x) || x == t,
        forall|x: Tag| #[trigger] before.contains(x) ==> after.contains(x),
        !before.contains(t) ==> (forall|k: int| !tag_at_key(before, name_key(names[i]), k)) && t.id == ids[i]
            && t.name@ == trim(names[i]@) && t.created_at == now && t.updated_at == now,
    ensures
        resolved(old, after, names, ids, now, links1, i + 1),
{
    assert forall|k: int| 0 <= k < i + 1 implies linked_key(after, links1, name_key(#[trigger] names[k])) by {
        if k < i {
            let x = choose|x: Tag| #[trigger] before.contains(x) && tag_key(x) == name_key(names[k]) && links0.contains(x.id);
            let m = choose|m: int| 0 <= m < links0.len() && links0[m] == x.id;
            assert(links1[m] == x.id);
            assert(after.contains(x) && links1.contains(x.id));
        } else {
            if !links0.contains(t.id) {
                assert(links1[links0.len() as int] == t.id);
            }
            assert(links1.contains(t.id));
        }
    }
    assert forall|a: int| 0 <= a < links1.len() implies link_named(after, names, i + 1, #[trigger] links1[a]) by {
        if a < links0.len() {
            assert(links1[a] == links0[a]);
            assert(link_named(before, names, i, links0[a]));
            let (x, k) = choose|x: Tag, k: int| #[trigger] before.contains(x) && 0 <= k < i && x.id == links0[a] && tag_key(x) == name_key(#[trigger] names[k]);
            assert(after.contains(x));
        } else {
            assert(links1[a] == t.id);
            assert(after.contains(t) && tag_key(t) == name_key(names[i]));
        }
    }
    assert forall|a: int, b: int| 0 <= a < b < links1.len() implies #[trigger] links1[a] != #[trigger] links1[b] by {
        if b >= links0.len() {
            assert(!links0.contains(t.id));
            assert(links1[a] == links0[a]);
        }
    }
    assert forall|x: Tag| #[trigger] after.contains(x) && !old.contains(x) implies (forall|y: Tag|
        old.contains(y) ==> tag_key(y) != tag_key(x)) && exists|k: int| 0 <= k < i + 1 && #[trigger] added_for(old, x, names, ids, now, k) by {
        if before.contains(x) {
            let k = choose|k: int| 0 <= k < i && #[trigger] added_for(old, x, names, ids, now, k);
            assert(added_for(old, x, names, ids, now, k));
        } else {
            assert(x == t);
            assert forall|y: Tag| old.contains(y) implies tag_key(y) != tag_key(x) by {
                assert(before.contains(y));
                let m = choose|m: int| 0 <= m < before.len() && before[m] == y;
                assert(!tag_at_key(before, name_key(names[i]), m));
            }
            assert forall|j: int| 0 <= j < i implies name_key(#[trigger] names[j]) != name_key(names[i]) by {
                let y = choose|y: Tag| #[trigger] before.contains(y) && tag_key(y) == name_key(names[j]) && links0.contains(y.id);
                let m = choose|m: int| 0 <= m < before.len() && before[m] == y;
                assert(!tag_at_key(before, name_key(names[i]), m));
            }
            assert(added_for(old, x, names, ids, now, i));
        }
    }
}


/// Input for creating a task.
#[derive(Clone, Debug)]
pub struct CreateTaskInput {
    pub title: String,
    pub description: Option<String>,
    pub due_at: i64,
    pub tag_names: Vec<String>,
    /// Optional 5-field POSIX cron. Empty / whitespace clears to `None`.
    pub repeat_cron: Option<String>,
}

/// The stored form of a description: trimmed, and `None` when blank.
pub open spec fn desc_norm(d: Option<Seq<char>>) -> Option<Seq<char>> {
    match d {
        None => None,
        Some(s) => if trim(s).len() == 0 {
            None
        } else {
            Some(trim(s))
        },
    }
}

/// The stored form of an optional description.
pub fn normalize_description(d: &Option<String>) -> (r: Option<String>)
    ensures
        opt_view(r) == desc_norm(opt_view(*d)),
{
    match d {
        None => None,
        Some(s) => {
            let t = trim_str(s.as_str());
            if t.as_str().unicode_len() == 0 {
                None
            } else {
                Some(t)
            }
        },
    }
}

/// Some row, live or deleted, has id `id`.
pub open spec fn task_id_taken(tasks: Seq<TaskRecord>, id: u128) -> bool {
    exists|k: int| 0 <= k < tasks.len() && #[trigger] tasks[k].id == id
}

/// Whether some row has id `id`.
pub fn task_id_used(tasks: &Vec<TaskRecord>, id: u128) -> (r: bool)
    ensures
        r == task_id_taken(tasks@, id),
{
    let mut k: usize = 0;
    while k < tasks.len()
        invariant
            k <= tasks@.len(),
            forall|j: int| 0 <= j < k ==> #[trigger] tasks@[j].id != id,
        decreases tasks@.len() - k,
    {
        if tasks[k].id == id {
            return true;
        }
        k += 1;
    }
    false
}

/// What creating a task does, for the time `now` and ids: one new inactive,
/// undeleted row with the trimmed title, the normalized description and
/// schedule and the resolved tags; the tags resolved; one `created` event
/// carrying the new task; nothing else.
pub open spec fn create_effect(
    old: TaskStore,
    new: TaskStore,
    input: CreateTaskInput,
    t: Task,
    now: i64,
    task_id: u128,
    event_id: u128,
    tag_ids: Seq<u128>,
) -> bool {
    let rec = new.tasks@.last();
    &&& new.tasks@.len() == old.tasks@.len() + 1
    &&& new.tasks@.drop_last() == old.tasks@
    &&& rec.id == task_id
    &&& rec.title@ == trim(input.title@)
    &&& opt_view(rec.description) == desc_norm(opt_view(input.description))
    &&& rec.status == TaskStatus::Inactive
    &&& rec.due_at == input.due_at
    &&& cron_normal(opt_view(input.repeat_cron)) == Ok::<Option<Seq<char>>, Seq<char>>(opt_view(rec.repeat_cron))
    &&& rec.created_at == now
    &&& rec.updated_at == now
    &&& rec.deleted_at is None
    &&& resolved(old.tags@, new.tags@, input.tag_names@, tag_ids, now, rec.tag_ids@, input.tag_names@.len() as int)
    &&& shows(t, rec, new.tags@)
    &&& new.events@.len() == old.events@.len() + 1
    &&& new.events@.drop_last() == old.events@
    &&& new.events@.last().seq == next_seq(old.events@)
    &&& new.events@.last().id == event_id
    &&& new.events@.last().task_id == task_id
    &&& new.events@.last().event_type == TaskEventType::Created
    &&& new.events@.last().created_at == now
    &&& new.events@.last().origin@ == local_origin(old)
    &&& new.device_id == old.device_id
    &&& (new.events@.last().payload matches EventPayload::Created { task, spawned_from }
        && spawned_from is None && shows_sorted(task, rec, new.tags@))
    &&& new.applied@ == old.applied@
}

/// Creates a task at time `now` with id `task_id`, logging event `event_id`;
/// a new tag for the name at position `k` gets `tag_ids[k]`.
pub fn create_task_at(
    store: &mut TaskStore,
    input: &CreateTaskInput,
    now: i64,
    task_id: u128,
    event_id: u128,
    tag_ids: &Vec<u128>,
) -> (r: Result<Task, Error>)
    requires
        old(store).wf(),
        tag_ids@.len() == input.tag_names@.len(),
    ensures
        final(store).wf(),
        r is Err ==> *final(store) == *old(store),
        trim(input.title@).len() == 0 ==> r matches Err(Error::EmptyTitle),
        trim(input.title@).len() > 0 && cron_normal(opt_view(input.repeat_cron)) is Err ==> (r matches Err(e)
            && e matches Error::InvalidCron(m) && cron_normal(opt_view(input.repeat_cron)) == Err::<Option<Seq<char>>, Seq<char>>(m@)),
        trim(input.title@).len() > 0 && cron_normal(opt_view(input.repeat_cron)) is Ok
            && task_id_taken(old(store).tasks@, task_id) ==> r matches Err(Error::Database(_)),
        r matches Ok(t) ==> create_effect(*old(store), *final(store), *input, t, now, task_id, event_id, tag_ids@),
        r matches Ok(_) ==> forall|k: int| 0 <= k < input.tag_names@.len() ==> trim(#[trigger] input.tag_names@[k]@).len() > 0,
        trim(input.title@).len() > 0 && cron_normal(opt_view(input.repeat_cron)) is Ok
            && !task_id_taken(old(store).tasks@, task_id)
            && (forall|k: int| 0 <= k < input.tag_names@.len() ==> trim(#[trigger] input.tag_names@[k]@).len() > 0)
            && ids_fresh(old(store).tags@, tag_ids@)
            && next_seq(old(store).events@) <= i64::MAX && !event_id_taken(old(store).events@, event_id) ==> r is Ok,
        r matches Err(e) ==> {
            ||| (e is EmptyTitle && trim(input.title@).len() == 0)
            ||| (e is InvalidCron && cron_normal(opt_view(input.repeat_cron)) is Err)
            ||| e is Database
            ||| (e matches Error::Message(m) && m@ == tag_name_required())
        },
{
    let title = trim_str(input.title.as_str());
    if title.as_str().unicode_len() == 0 {
        return Err(Error::EmptyTitle);
    }
    let repeat_cron = normalize_cron(match &input.repeat_cron {
        Some(c) => Some(c.as_str()),
        None => None,
    })?;
    if task_id_used(&store.tasks, task_id) {
        return Err(Error::Database(crate::text::from_chars(&crate::text::to_chars("UNIQUE constraint failed: tasks.id"))));
    }
    let description = normalize_description(&input.description);
    let (new_tags, links, _) = resolve_tags(&store.tags, &input.tag_names, tag_ids, now)?;
    let seq = event_slot(&store.events, event_id)?;
    let rec = TaskRecord {
        id: task_id,
        title,
        description,
        status: TaskStatus::Inactive,
        due_at: input.due_at,
        repeat_cron,
        created_at: now,
        updated_at: now,
        deleted_at: None,
        tag_ids: links,
    };
    let snapshot = task_of_sorted(&rec, &new_tags);
    let result = task_of(&rec, &new_tags);
    store.tags = new_tags;
    store.tasks.push(rec);
    push_event(store, seq, event_id, task_id, TaskEventType::Created,
        EventPayload::Created { task: snapshot, spawned_from: None }, now);
    proof {
        let new = *store;
        let rec = new.tasks@.last();
        assert(new.tasks@.len() == old(store).tasks@.len() + 1);
        assert(new.tasks@.drop_last() == old(store).tasks@);
        assert(rec.title@ == trim(input.title@));
        assert(opt_view(rec.description) == desc_norm(opt_view(input.description)));
        assert(cron_normal(opt_view(input.repeat_cron)) == Ok::<Option<Seq<char>>, Seq<char>>(opt_view(rec.repeat_cron)));
        assert(resolved(old(store).tags@, new.tags@, input.tag_names@, tag_ids@, now, rec.tag_ids@, input.tag_names@.len() as int));
        assert(shows(result, rec, new.tags@));
        assert(new.events@.last().seq == next_seq(old(store).events@));
    }
    Ok(result)
}

/// Fresh ids, one per position.
pub fn fresh_ids(n: usize) -> (r: Vec<u128>)
    ensures
        r@.len() == n,
{
    let mut r: Vec<u128> = Vec::new();
    let mut i: usize = 0;
    while i < n
        invariant
            i <= n,
            r@.len() == i,
        decreases n - i,
    {
        r.push(new_id());
        i += 1;
    }
    r
}

/// Creates a task, now, with fresh ids: inactive, with the trimmed title,
/// the normalized description and schedule, and its tags found or added by
/// name; a `created` event records it. A blank title or an invalid schedule
/// is refused, and any failure leaves the store as it was.
pub fn create_task(store: &mut TaskStore, input: &CreateTaskInput) -> (r: Result<Task, Error>)
    requires
        old(store).wf(),
    ensures
        final(store).wf(),
        r is Err ==> *final(store) == *old(store),
        trim(input.title@).len() == 0 ==> r matches Err(Error::EmptyTitle),
        trim(input.title@).len() > 0 && cron_normal(opt_view(input.repeat_cron)) is Err ==> (r matches Err(e)
            && e matches Error::InvalidCron(m) && cron_normal(opt_view(input.repeat_cron)) == Err::<Option<Seq<char>>, Seq<char>>(m@)),
        r matches Ok(t) ==> exists|now: i64, task_id: u128, event_id: u128, tag_ids: Seq<u128>|
            create_effect(*old(store), *final(store), *input, t, now, task_id, event_id, tag_ids),
        r matches Err(e) ==> {
            ||| (e is EmptyTitle && trim(input.title@).len() == 0)
            ||| (e is InvalidCron && cron_normal(opt_view(input.repeat_cron)) is Err)
            ||| e is Database
            ||| (e matches Error::Message(m) && (m@ == tag_name_required() || m@ == crate::tags::clock_out_of_range()))
        },
{
    let title = trim_str(input.title.as_str());
    if title.as_str().unicode_len() == 0 {
        return Err(Error::EmptyTitle);
    }
    let _ = normalize_cron(match &input.repeat_cron {
        Some(c) => Some(c.as_str()),
        None => None,
    })?;
    let now = current_time()?;
    let task_id = new_id();
    let event_id = new_id();
    let tag_ids = fresh_ids(input.tag_names.len());
    create_task_at(store, input, now, task_id, event_id, &tag_ids)
}


/// Input for changing a task's status.
#[derive(Clone, Copy, Debug)]
pub struct UpdateTaskStatusInput {
    pub id: u128,
    pub status: TaskStatus,
}

/// A changed task, and the next occurrence spawned when completing a
/// recurring task.
#[derive(Clone, Debug)]
pub struct StatusUpdateResult {
    pub task: Task,
    pub spawned: Option<Task>,
}

/// A copy of a task row.
pub fn copy_record(r: &TaskRecord) -> (c: TaskRecord)
    ensures
        crate::tags::same_row(c, *r),
        c.tag_ids@ == r.tag_ids@,
{
    TaskRecord {
        id: r.id,
        title: r.title.clone(),
        description: copy_opt(&r.description),
        status: r.status,
        due_at: r.due_at,
        repeat_cron: copy_opt(&r.repeat_cron),
        created_at: r.created_at,
        updated_at: r.updated_at,
        deleted_at: r.deleted_at,
        tag_ids: copy_ids(&r.tag_ids),
    }
}

/// A copy of the list of linked tag ids.
pub fn copy_ids(ids: &Vec<u128>) -> (r: Vec<u128>)
    ensures
        r@ == ids@,
{
    let mut r: Vec<u128> = Vec::new();
    let mut i: usize = 0;
    while i < ids.len()
        invariant
            i <= ids@.len(),
            r@ == ids@.subrange(0, i as int),
        decreases ids@.len() - i,
    {
        r.push(ids[i]);
        assert(ids@.subrange(0, i + 1) == ids@.subrange(0, i as int).push(ids@[i as int]));
        i += 1;
    }
    assert(ids@.subrange(0, ids@.len() as int) == ids@);
    r
}

/// What spawning the next occurrence of row `src` does: one new inactive
/// row due at `next_due` with the title, description, schedule and tags of
/// `src`, and a `created` event that names `src`; nothing else.
pub open spec fn spawn_effect(
    old: TaskStore,
    new: TaskStore,
    src: TaskRecord,
    t: Task,
    now: i64,
    next_due: i64,
    new_id: u128,
    event_id: u128,
) -> bool {
    let rec = new.tasks@.last();
    &&& new.tasks@.len() == old.tasks@.len() + 1
    &&& new.tasks@.drop_last() == old.tasks@
    &&& rec.id == new_id
    &&& rec.title == src.title
    &&& rec.description == src.description
    &&& rec.status == TaskStatus::Inactive
    &&& rec.due_at == next_due
    &&& rec.repeat_cron == src.repeat_cron
    &&& rec.created_at == now
    &&& rec.updated_at == now
    &&& rec.deleted_at is None
    &&& rec.tag_ids@ == src.tag_ids@
    &&& shows(t, rec, new.tags@)
    &&& new.tags@ == old.tags@
    &&& new.applied@ == old.applied@
    &&& new.events@.len() == old.events@.len() + 1
    &&& new.events@.drop_last() == old.events@
    &&& new.events@.last().seq == next_seq(old.events@)
    &&& new.events@.last().id == event_id
    &&& new.events@.last().task_id == new_id
    &&& new.events@.last().event_type == TaskEventType::Created
    &&& new.events@.last().created_at == now
    &&& new.events@.last().origin@ == local_origin(old)
    &&& new.device_id == old.device_id
    &&& (new.events@.last().payload matches EventPayload::Created { task, spawned_from }
        && spawned_from == Some(src.id) && shows_sorted(task, rec, new.tags@))
}

/// Adds the next occurrence of the recurring task `src`, due at
/// `next_due`, with id `new_id`, logging event `event_id`.
pub fn spawn_next_at(
    store: &mut TaskStore,
    src: &TaskRecord,
    now: i64,
    next_due: i64,
    new_id: u128,
    event_id: u128,
) -> (r: Result<Task, Error>)
    requires
        old(store).wf(),
        src.repeat_cron is Some,
    ensures
        final(store).wf(),
        r is Err ==> *final(store) == *old(store),
        r is Ok <==> !task_id_taken(old(store).tasks@, new_id) && next_seq(old(store).events@) <= i64::MAX
            && !event_id_taken(old(store).events@, event_id),
        r matches Err(e) ==> e is Database,
        r matches Ok(t) ==> spawn_effect(*old(store), *final(store), *src, t, now, next_due, new_id, event_id),
{
    if task_id_used(&store.tasks, new_id) {
        return Err(Error::Database(crate::text::from_chars(&crate::text::to_chars("UNIQUE constraint failed: tasks.id"))));
    }
    let seq = event_slot(&store.events, event_id)?;
    let rec = TaskRecord {
        id: new_id,
        title: src.title.clone(),
        description: copy_opt(&src.description),
        status: TaskStatus::Inactive,
        due_at: next_due,
        repeat_cron: copy_opt(&src.repeat_cron),
        created_at: now,
        updated_at: now,
        deleted_at: None,
        tag_ids: copy_ids(&src.tag_ids),
    };
    let src_id = src.id;
    let snapshot = task_of_sorted(&rec, &store.tags);
    let result = task_of(&rec, &store.tags);
    store.tasks.push(rec);
    push_event(store, seq, event_id, new_id, TaskEventType::Created,
        EventPayload::Created { task: snapshot, spawned_from: Some(src_id) }, now);
    proof {
        assert(store.tasks@.drop_last() == old(store).tasks@);
        assert(shows(result, store.tasks@.last(), store.tags@));
    }
    Ok(result)
}

/// Whether the status change spawns: completing a row that still has a
/// schedule.
pub open spec fn spawns(cur: TaskRecord, status: TaskStatus) -> bool {
    status == TaskStatus::Complete && cur.repeat_cron is Some
}

/// Due time after which the next occurrence of `cur` is searched: its due
/// time or `now`, whichever is later (so overdue series skip the backlog).
pub open spec fn spawn_after(cur: TaskRecord, now: i64) -> i64 {
    if cur.due_at > now {
        cur.due_at
    } else {
        now
    }
}

/// The instant after which the next occurrence of `cur` is searched, at
/// time `now` (see [`spawn_after`]).
pub fn spawn_search_start(cur: &TaskRecord, now: i64) -> (r: i64)
    ensures
        r == spawn_after(*cur, now),
        r >= cur.due_at,
        r >= now,
        r == cur.due_at || r == now,
{
    if cur.due_at > now {
        cur.due_at
    } else {
        now
    }
}

/// The search for the next occurrence never starts before the completed
/// row's own due time, nor before the moment of completion: it starts at
/// the later of the two. So a row completed early spawns the occurrence
/// after its due time, not the very occurrence just completed.
pub proof fn lemma_spawn_search_not_before_due(cur: TaskRecord, now: i64)
    ensures
        spawn_after(cur, now) >= cur.due_at,
        spawn_after(cur, now) >= now,
        spawn_after(cur, now) == cur.due_at || spawn_after(cur, now) == now,
        cur.due_at > now ==> spawn_after(cur, now) == cur.due_at,
{
}

/// `d` is what schedule `cron` gave when searched after `after`: a call of
/// [`crate::cron::next_occurrence`] with that schedule and start returned it.
pub open spec fn occurrence_found(cron: Seq<char>, after: i64, d: i64) -> bool {
    exists|c: &str| c@ == cron && #[trigger] call_ensures(crate::cron::next_occurrence, (c, after), Ok::<i64, Error>(d))
}

/// The due time of the next occurrence of schedule `cron` when row `cur`
/// is completed at `now`: the schedule searched after [`spawn_after`].
pub fn spawn_due(cron: &String, cur: &TaskRecord, now: i64) -> (r: Result<i64, Error>)
    ensures
        r matches Ok(d) ==> occurrence_found(cron@, spawn_after(*cur, now), d),
        r matches Err(e) ==> e is InvalidCron,
{
    let c: &str = cron.as_str();
    let after = spawn_search_start(cur, now);
    let r = crate::cron::next_occurrence(c, after);
    proof {
        if r is Ok {
            assert(call_ensures(crate::cron::next_occurrence, (c, after), r));
            assert(occurrence_found(cron@, after, r->Ok_0));
        }
    }
    r
}

/// The recorded changes of a status update: the status when it changes,
/// then the schedule when it is cleared.
pub open spec fn status_changes_ok(changes: Seq<FieldChange>, cur: TaskRecord, status: TaskStatus, cleared: bool) -> bool {
    let status_changed = cur.status != status;
    &&& changes.len() == (if status_changed { 1int } else { 0int }) + (if cleared { 1int } else { 0int })
    &&& status_changed ==> change_is(changes[0], TaskField::Status,
        FieldView::Text(crate::models::status_str(cur.status)), FieldView::Text(crate::models::status_str(status)))
    &&& cleared ==> change_is(changes.last(), TaskField::RepeatCron,
        opt_text(opt_view(cur.repeat_cron)), FieldView::Null)
}

/// Row `new` is row `cur` with status `status`, schedule cleared when
/// `cleared`, updated at `now`.
pub open spec fn status_applied(new: TaskRecord, cur: TaskRecord, status: TaskStatus, cleared: bool, now: i64) -> bool {
    &&& new.id == cur.id
    &&& new.title == cur.title
    &&& new.description == cur.description
    &&& new.status == status
    &&& new.due_at == cur.due_at
    &&& new.repeat_cron == (if cleared { None } else { cur.repeat_cron })
    &&& new.created_at == cur.created_at
    &&& new.updated_at == now
    &&& new.deleted_at == cur.deleted_at
    &&& new.tag_ids@ == cur.tag_ids@
}

/// What the status write does to row `i` of `old`: the row changed as
/// [`status_applied`] says, other rows and the tags kept, and an `updated`
/// event with the changes and the task after, when anything changed.
pub open spec fn status_write_effect(
    old: TaskStore,
    new: TaskStore,
    i: int,
    status: TaskStatus,
    cleared: bool,
    now: i64,
    event_id: u128,
    t: Task,
) -> bool {
    let cur = old.tasks@[i];
    let changed = cur.status != status || (cleared && cur.repeat_cron is Some);
    &&& new.tasks@.len() == old.tasks@.len()
    &&& forall|j: int| 0 <= j < old.tasks@.len() && j != i ==> #[trigger] new.tasks@[j] == old.tasks@[j]
    &&& status_applied(new.tasks@[i], cur, status, cleared, now)
    &&& shows(t, new.tasks@[i], new.tags@)
    &&& new.tags@ == old.tags@
    &&& new.applied@ == old.applied@
    &&& new.device_id == old.device_id
    &&& !changed ==> new.events@ == old.events@
    &&& changed ==> {
        &&& new.events@.len() == old.events@.len() + 1
        &&& new.events@.drop_last() == old.events@
        &&& new.events@.last().seq == next_seq(old.events@)
        &&& new.events@.last().id == event_id
        &&& new.events@.last().task_id == cur.id
        &&& new.events@.last().event_type == TaskEventType::Updated
        &&& new.events@.last().created_at == now
        &&& new.events@.last().origin@ == local_origin(old)
        &&& (new.events@.last().payload matches EventPayload::Updated { changes, task }
            && status_changes_ok(changes@, cur, status, cleared && cur.repeat_cron is Some)
            && shows(task, new.tasks@[i], new.tags@))
    }
}

/// The text of a status, as a recorded value.
fn status_value(s: TaskStatus) -> (r: FieldValue)
    ensures
        crate::store::field_view(r) == FieldView::Text(crate::models::status_str(s)),
{
    FieldValue::Text(crate::text::from_chars(&crate::text::to_chars(s.as_str())))
}

/// An optional text as a recorded value.
fn opt_value(o: &Option<String>) -> (r: FieldValue)
    ensures
        crate::store::field_view(r) == opt_text(opt_view(*o)),
{
    match o {
        Some(s) => FieldValue::Text(s.clone()),
        None => FieldValue::Null,
    }
}

/// Writes status `status` to row `i` at `now`, clearing its schedule when
/// `clear_cron`, and logs the change as event `event_id` when anything
/// changed.
pub fn write_status(
    store: &mut TaskStore,
    i: usize,
    status: TaskStatus,
    clear_cron: bool,
    now: i64,
    event_id: u128,
) -> (r: Result<Task, Error>)
    requires
        old(store).wf(),
        i < old(store).tasks@.len(),
    ensures
        final(store).wf(),
        r is Err ==> *final(store) == *old(store),
        r matches Err(e) ==> e is Database,
        ({
            let cur = old(store).tasks@[i as int];
            let changed = cur.status != status || (clear_cron && cur.repeat_cron is Some);
            r is Ok <==> !changed || (next_seq(old(store).events@) <= i64::MAX && !event_id_taken(old(store).events@, event_id))
        }),
        r matches Ok(t) ==> status_write_effect(*old(store), *final(store), i as int, status, clear_cron, now, event_id, t),
{
    let cur = &store.tasks[i];
    let status_changed = cur.status != status;
    let cron_changed = clear_cron && cur.repeat_cron.is_some();
    let mut seq: i64 = 0;
    if status_changed || cron_changed {
        seq = event_slot(&store.events, event_id)?;
    }
    let mut changes: Vec<FieldChange> = Vec::new();
    if status_changed {
        changes.push(FieldChange { field: TaskField::Status, old: status_value(cur.status), new: status_value(status) });
    }
    if cron_changed {
        changes.push(FieldChange { field: TaskField::RepeatCron, old: opt_value(&cur.repeat_cron), new: FieldValue::Null });
    }
    let rec = TaskRecord {
        id: cur.id,
        title: cur.title.clone(),
        description: copy_opt(&cur.description),
        status,
        due_at: cur.due_at,
        repeat_cron: if clear_cron { None } else { copy_opt(&cur.repeat_cron) },
        created_at: cur.created_at,
        updated_at: now,
        deleted_at: cur.deleted_at,
        tag_ids: copy_ids(&cur.tag_ids),
    };
    let ghost cur_rec = *cur;
    let snapshot = task_of(&rec, &store.tags);
    let result = task_of(&rec, &store.tags);
    let task_id = rec.id;
    store.tasks.set(i, rec);
    if status_changed || cron_changed {
        push_event(store, seq, event_id, task_id, TaskEventType::Updated,
            EventPayload::Updated { changes, task: snapshot }, now);
    }
    proof {
        assert(status_applied(store.tasks@[i as int], cur_rec, status, clear_cron, now));
    }
    Ok(result)
}


/// What a successful status update of live row `i` does: when completing a
/// row that still has a schedule, first the next occurrence is spawned at
/// `next_due` and the schedule of row `i` is cleared; then the status is
/// written as [`status_write_effect`] says.
pub open spec fn status_update_effect(
    old: TaskStore,
    new: TaskStore,
    i: int,
    status: TaskStatus,
    res: StatusUpdateResult,
    now: i64,
    next_due: i64,
    spawn_id: u128,
    spawn_event_id: u128,
    event_id: u128,
) -> bool {
    let cur = old.tasks@[i];
    if spawns(cur, status) {
        exists|mid: TaskStore| {
            &&& res.spawned matches Some(sp)
            &&& spawn_effect(old, mid, cur, sp, now, next_due, spawn_id, spawn_event_id)
            &&& #[trigger] status_write_effect(mid, new, i, status, true, now, event_id, res.task)
        }
    } else {
        res.spawned is None && status_write_effect(old, new, i, status, false, now, event_id, res.task)
    }
}

/// When the status update of live row `i` succeeds: a spawning update needs
/// the next due time, a free id for the new row and room for its two
/// events; any other needs room for its event when the status changes.
pub open spec fn status_update_ok(
    old: TaskStore,
    i: int,
    status: TaskStatus,
    next_due: Result<i64, Error>,
    spawn_id: u128,
    spawn_event_id: u128,
    event_id: u128,
) -> bool {
    let cur = old.tasks@[i];
    if spawns(cur, status) {
        &&& next_due is Ok
        &&& !task_id_taken(old.tasks@, spawn_id)
        &&& log_room_two(old.events@, spawn_event_id, event_id)
    } else {
        cur.status != status ==> log_room(old.events@, event_id)
    }
}

/// Sets the status of the live task `input.id` at `now`. Completing a task
/// that still has a schedule first adds its next occurrence, due at
/// `next_due` (the schedule's first occurrence after
/// [`spawn_after`]), with ids `spawn_id` and `spawn_event_id`, and clears
/// the schedule of the completed row. An `updated` event `event_id` records
/// what changed.
pub fn update_task_status_at(
    store: &mut TaskStore,
    input: &UpdateTaskStatusInput,
    now: i64,
    next_due: Result<i64, Error>,
    spawn_id: u128,
    spawn_event_id: u128,
    event_id: u128,
) -> (r: Result<StatusUpdateResult, Error>)
    requires
        old(store).wf(),
    ensures
        final(store).wf(),
        !has_live(old(store).tasks@, input.id) ==> *final(store) == *old(store) && (r matches Err(e)
            && e matches Error::TaskNotFound(m) && m@ == crate::ids::uuid_text(input.id)),
        forall|i: int| #[trigger] first_live(old(store).tasks@, input.id, i) ==> {
            let cur = old(store).tasks@[i];
            &&& spawns(cur, input.status) && next_due is Err ==> *final(store) == *old(store)
                && (next_due matches Err(e) && r matches Err(e2) && e2 == e)
            &&& r matches Ok(res) ==> next_due matches Ok(d) || !spawns(cur, input.status)
            &&& r matches Ok(res) ==> status_update_effect(*old(store), *final(store), i, input.status, res, now,
                match next_due { Ok(d) => d, Err(_) => 0 }, spawn_id, spawn_event_id, event_id)
            &&& r is Err && !(spawns(cur, input.status) && next_due is Err) ==> (r matches Err(Error::Database(_)))
            &&& r is Ok <==> status_update_ok(*old(store), i, input.status, next_due, spawn_id, spawn_event_id, event_id)
        },
        r matches Err(e) ==> (e is TaskNotFound && !has_live(old(store).tasks@, input.id)) || e is Database
            || next_due == Err::<i64, Error>(e),
{
    let i = match find_live(&store.tasks, input.id) {
        Some(i) => i,
        None => {
            return Err(Error::TaskNotFound(crate::ids::id_string(input.id)));
        },
    };
    let ghost old_store = *store;
    let will_spawn = input.status == TaskStatus::Complete && store.tasks[i].repeat_cron.is_some();
    if will_spawn {
        let d = match next_due {
            Ok(d) => d,
            Err(e) => {
                proof {
                    assert forall|j: int| #[trigger] first_live(old_store.tasks@, input.id, j) implies j == i by {
                        lemma_first_live_unique(old_store.tasks@, input.id, i as int, j);
                    }
                }
                return Err(e);
            },
        };
        let src = copy_record(&store.tasks[i]);
        let spawned = spawn_next_at(store, &src, now, d, spawn_id, spawn_event_id)?;
        let ghost mid = *store;
        proof {
            lemma_log_push(old_store.events@, mid.events@);
            assert(mid.tasks@[i as int] == old_store.tasks@[i as int]);
        }
        let task = write_status(store, i, input.status, true, now, event_id)?;
        let res = StatusUpdateResult { task, spawned: Some(spawned) };
        proof {
            assert forall|j: int| #[trigger] first_live(old_store.tasks@, input.id, j) implies j == i by {
                lemma_first_live_unique(old_store.tasks@, input.id, i as int, j);
            }
            assert(status_write_effect(mid, *store, i as int, input.status, true, now, event_id, res.task));
        }
        Ok(res)
    } else {
        let task = write_status(store, i, input.status, false, now, event_id)?;
        proof {
            assert forall|j: int| #[trigger] first_live(old_store.tasks@, input.id, j) implies j == i by {
                lemma_first_live_unique(old_store.tasks@, input.id, i as int, j);
            }
        }
        Ok(StatusUpdateResult { task, spawned: None })
    }
}


/// Sets the status of the live task `input.id`, now. Completing a task that
/// still has a schedule first adds its next occurrence (the schedule's first
/// occurrence after its due time or now, whichever is later) and clears the
/// schedule of the completed row; an `updated` event records what changed.
pub fn update_task_status(store: &mut TaskStore, input: &UpdateTaskStatusInput) -> (r: Result<StatusUpdateResult, Error>)
    requires
        old(store).wf(),
    ensures
        final(store).wf(),
        !has_live(old(store).tasks@, input.id) ==> *final(store) == *old(store) && (r matches Err(e)
            && e matches Error::TaskNotFound(m) && m@ == crate::ids::uuid_text(input.id)),
        forall|i: int| #[trigger] first_live(old(store).tasks@, input.id, i) ==> (r matches Ok(res) ==> exists|
            now: i64,
            next_due: i64,
            spawn_id: u128,
            spawn_event_id: u128,
            event_id: u128,
        |
            status_update_effect(*old(store), *final(store), i, input.status, res, now, next_due, spawn_id,
                spawn_event_id, event_id) && (spawns(old(store).tasks@[i], input.status) ==> occurrence_found(
                old(store).tasks@[i].repeat_cron->Some_0@, spawn_after(old(store).tasks@[i], now), next_due))),
        r matches Err(e) ==> (e is TaskNotFound && !has_live(old(store).tasks@, input.id)) || e is Database
            || (e is InvalidCron && forall|i: int| #[trigger] first_live(old(store).tasks@, input.id, i)
                ==> spawns(old(store).tasks@[i], input.status))
            || (e matches Error::Message(m) && m@ == crate::tags::clock_out_of_range()),
{
    let i = match find_live(&store.tasks, input.id) {
        Some(i) => i,
        None => {
            return Err(Error::TaskNotFound(crate::ids::id_string(input.id)));
        },
    };
    let now = current_time()?;
    let next_due: Result<i64, Error> = match &store.tasks[i].repeat_cron {
        Some(cron) => {
            if input.status == TaskStatus::Complete {
                spawn_due(cron, &store.tasks[i], now)
            } else {
                Ok(0)
            }
        },
        None => Ok(0),
    };
    let spawn_id = new_id();
    let spawn_event_id = new_id();
    let event_id = new_id();
    let ghost nd = next_due;
    let r = update_task_status_at(store, input, now, next_due, spawn_id, spawn_event_id, event_id);
    proof {
        assert forall|j: int| #[trigger] first_live(old(store).tasks@, input.id, j) implies j == i by {
            lemma_first_live_unique(old(store).tasks@, input.id, i as int, j);
        }
        assert forall|j: int| #[trigger] first_live(old(store).tasks@, input.id, j) implies (r matches Ok(res) ==> exists|
            now: i64,
            next_due: i64,
            spawn_id: u128,
            spawn_event_id: u128,
            event_id: u128,
        |
            status_update_effect(*old(store), *store, j, input.status, res, now, next_due, spawn_id,
                spawn_event_id, event_id) && (spawns(old(store).tasks@[j], input.status) ==> occurrence_found(
                old(store).tasks@[j].repeat_cron->Some_0@, spawn_after(old(store).tasks@[j], now), next_due))) by {
            if r is Ok {
                let res = r->Ok_0;
                let d = match nd { Ok(d) => d, Err(_) => 0 };
                assert(status_update_effect(*old(store), *store, j, input.status, res, now, d, spawn_id,
                    spawn_event_id, event_id));
            }
        }
    }
    r
}


/// Row `new` is row `cur` due at `due`, updated at `now`.
pub open spec fn due_applied(new: TaskRecord, cur: TaskRecord, due: i64, now: i64) -> bool {
    &&& new.id == cur.id
    &&& new.title == cur.title
    &&& new.description == cur.description
    &&& new.status == cur.status
    &&& new.due_at == due
    &&& new.repeat_cron == cur.repeat_cron
    &&& new.created_at == cur.created_at
    &&& new.updated_at == now
    &&& new.deleted_at == cur.deleted_at
    &&& new.tag_ids@ == cur.tag_ids@
}

/// What moving row `i` to `due` does: the row changed as [`due_applied`]
/// says, other rows and the tags kept, and, when the due time changed, an
/// `updated` event with the change and the task after.
pub open spec fn reschedule_effect(old: TaskStore, new: TaskStore, i: int, due: i64, now: i64, event_id: u128, t: Task) -> bool {
    let cur = old.tasks@[i];
    &&& new.tasks@.len() == old.tasks@.len()
    &&& forall|j: int| 0 <= j < old.tasks@.len() && j != i ==> #[trigger] new.tasks@[j] == old.tasks@[j]
    &&& due_applied(new.tasks@[i], cur, due, now)
    &&& shows(t, new.tasks@[i], new.tags@)
    &&& new.tags@ == old.tags@
    &&& new.applied@ == old.applied@
    &&& new.device_id == old.device_id
    &&& cur.due_at == due ==> new.events@ == old.events@
    &&& cur.due_at != due ==> {
        &&& new.events@.len() == old.events@.len() + 1
        &&& new.events@.drop_last() == old.events@
        &&& new.events@.last().seq == next_seq(old.events@)
        &&& new.events@.last().id == event_id
        &&& new.events@.last().task_id == cur.id
        &&& new.events@.last().event_type == TaskEventType::Updated
        &&& new.events@.last().created_at == now
        &&& new.events@.last().origin@ == local_origin(old)
        &&& (new.events@.last().payload matches EventPayload::Updated { changes, task }
            && changes@.len() == 1
            && change_is(changes@[0], TaskField::DueAt, FieldView::Time(cur.due_at), FieldView::Time(due))
            && shows(task, new.tasks@[i], new.tags@))
    }
}

/// Moves the live task `id` to `due` at `now`, logging event `event_id` when
/// the due time changes.
pub fn reschedule_task_to(store: &mut TaskStore, id: u128, due: i64, now: i64, event_id: u128) -> (r: Result<Task, Error>)
    requires
        old(store).wf(),
    ensures
        final(store).wf(),
        r is Err ==> *final(store) == *old(store),
        !has_live(old(store).tasks@, id) ==> (r matches Err(e) && e matches Error::TaskNotFound(m)
            && m@ == crate::ids::uuid_text(id)),
        forall|i: int| #[trigger] first_live(old(store).tasks@, id, i) ==> {
            &&& r is Ok <==> old(store).tasks@[i].due_at == due || (next_seq(old(store).events@) <= i64::MAX
                && !event_id_taken(old(store).events@, event_id))
            &&& r matches Ok(t) ==> reschedule_effect(*old(store), *final(store), i, due, now, event_id, t)
            &&& r matches Err(e) ==> e is Database
        },
{
    let i = match find_live(&store.tasks, id) {
        Some(i) => i,
        None => {
            return Err(Error::TaskNotFound(crate::ids::id_string(id)));
        },
    };
    proof {
        assert forall|j: int| #[trigger] first_live(old(store).tasks@, id, j) implies j == i by {
            lemma_first_live_unique(old(store).tasks@, id, i as int, j);
        }
    }
    let cur = &store.tasks[i];
    let changed = cur.due_at != due;
    let mut seq: i64 = 0;
    if changed {
        seq = event_slot(&store.events, event_id)?;
    }
    let mut changes: Vec<FieldChange> = Vec::new();
    changes.push(FieldChange { field: TaskField::DueAt, old: FieldValue::Time(cur.due_at), new: FieldValue::Time(due) });
    let rec = TaskRecord {
        id: cur.id,
        title: cur.title.clone(),
        description: copy_opt(&cur.description),
        status: cur.status,
        due_at: due,
        repeat_cron: copy_opt(&cur.repeat_cron),
        created_at: cur.created_at,
        updated_at: now,
        deleted_at: cur.deleted_at,
        tag_ids: copy_ids(&cur.tag_ids),
    };
    let ghost cur_rec = *cur;
    let snapshot = task_of(&rec, &store.tags);
    let result = task_of(&rec, &store.tags);
    let task_id = rec.id;
    store.tasks.set(i, rec);
    if changed {
        push_event(store, seq, event_id, task_id, TaskEventType::Updated,
            EventPayload::Updated { changes, task: snapshot }, now);
    }
    proof {
        assert(due_applied(store.tasks@[i as int], cur_rec, due, now));
    }
    Ok(result)
}

/// What deleting row `i` does: the row marked deleted and updated at
/// `now`, nothing else changed but a `deleted` event carrying the task as
/// deleted.
pub open spec fn delete_effect(old: TaskStore, new: TaskStore, i: int, now: i64, event_id: u128) -> bool {
    let cur = old.tasks@[i];
    let rec = new.tasks@[i];
    &&& new.tasks@.len() == old.tasks@.len()
    &&& forall|j: int| 0 <= j < old.tasks@.len() && j != i ==> #[trigger] new.tasks@[j] == old.tasks@[j]
    &&& rec.id == cur.id && rec.title == cur.title && rec.description == cur.description
    &&& rec.status == cur.status && rec.due_at == cur.due_at && rec.repeat_cron == cur.repeat_cron
    &&& rec.created_at == cur.created_at && rec.tag_ids@ == cur.tag_ids@
    &&& rec.deleted_at == Some(now)
    &&& rec.updated_at == now
    &&& new.tags@ == old.tags@
    &&& new.applied@ == old.applied@
    &&& new.events@.len() == old.events@.len() + 1
    &&& new.events@.drop_last() == old.events@
    &&& new.events@.last().seq == next_seq(old.events@)
    &&& new.events@.last().id == event_id
    &&& new.events@.last().task_id == cur.id
    &&& new.events@.last().event_type == TaskEventType::Deleted
    &&& new.events@.last().created_at == now
    &&& new.events@.last().origin@ == local_origin(old)
    &&& new.device_id == old.device_id
    &&& (new.events@.last().payload matches EventPayload::Deleted { task } && shows(task, rec, new.tags@))
}

/// Soft-deletes the live task `id` at `now`, logging event `event_id`.
pub fn delete_task_at(store: &mut TaskStore, id: u128, now: i64, event_id: u128) -> (r: Result<(), Error>)
    requires
        old(store).wf(),
    ensures
        final(store).wf(),
        r is Err ==> *final(store) == *old(store),
        !has_live(old(store).tasks@, id) ==> (r matches Err(e) && e matches Error::TaskNotFound(m)
            && m@ == crate::ids::uuid_text(id)),
        forall|i: int| #[trigger] first_live(old(store).tasks@, id, i) ==> {
            &&& r is Ok <==> next_seq(old(store).events@) <= i64::MAX && !event_id_taken(old(store).events@, event_id)
            &&& r is Ok ==> delete_effect(*old(store), *final(store), i, now, event_id)
            &&& r matches Err(e) ==> e is Database
        },
{
    let i = match find_live(&store.tasks, id) {
        Some(i) => i,
        None => {
            return Err(Error::TaskNotFound(crate::ids::id_string(id)));
        },
    };
    proof {
        assert forall|j: int| #[trigger] first_live(old(store).tasks@, id, j) implies j == i by {
            lemma_first_live_unique(old(store).tasks@, id, i as int, j);
        }
    }
    let seq = event_slot(&store.events, event_id)?;
    let cur = &store.tasks[i];
    let rec = TaskRecord {
        id: cur.id,
        title: cur.title.clone(),
        description: copy_opt(&cur.description),
        status: cur.status,
        due_at: cur.due_at,
        repeat_cron: copy_opt(&cur.repeat_cron),
        created_at: cur.created_at,
        updated_at: now,
        deleted_at: Some(now),
        tag_ids: copy_ids(&cur.tag_ids),
    };
    let snapshot = task_of(&rec, &store.tags);
    let task_id = rec.id;
    store.tasks.set(i, rec);
    push_event(store, seq, event_id, task_id, TaskEventType::Deleted, EventPayload::Deleted { task: snapshot }, now);
    Ok(())
}

/// Soft-deletes the live task `id`, now; a `deleted` event records it. An
/// unknown or already deleted id is an error that names it.
pub fn delete_task(store: &mut TaskStore, id: u128) -> (r: Result<(), Error>)
    requires
        old(store).wf(),
    ensures
        final(store).wf(),
        r is Err ==> *final(store) == *old(store),
        !has_live(old(store).tasks@, id) ==> (r matches Err(e) && e matches Error::TaskNotFound(m)
            && m@ == crate::ids::uuid_text(id)),
        forall|i: int| #[trigger] first_live(old(store).tasks@, id, i) ==> (r is Ok ==> exists|now: i64, event_id: u128|
            delete_effect(*old(store), *final(store), i, now, event_id)),
        r matches Err(e) ==> (e is TaskNotFound && !has_live(old(store).tasks@, id)) || e is Database
            || (e matches Error::Message(m) && m@ == crate::tags::clock_out_of_range()),
{
    if find_live(&store.tasks, id).is_none() {
        return Err(Error::TaskNotFound(crate::ids::id_string(id)));
    }
    let now = current_time()?;
    let event_id = new_id();
    let r = delete_task_at(store, id, now, event_id);
    proof {
        if has_live(old(store).tasks@, id) {
            let k = choose|k: int| 0 <= k < old(store).tasks@.len() && #[trigger] old(store).tasks@[k].id == id
                && old(store).tasks@[k].deleted_at is None;
            lemma_has_live_first(old(store).tasks@, id, k);
        }
    }
    r
}


/// Lowercase forms of tag names, the key by which snapshots order tags.
pub open spec fn lower_keys(t: Seq<Tag>) -> Seq<Seq<char>> {
    t.map_values(|x: Tag| lowercase(x.name@))
}

/// Tags in stable order of their lowercase names.
pub open spec fn lower_sorted_tags(t: Seq<Tag>) -> Seq<Tag> {
    key_order(lower_keys(t), t.len() as int).map_values(|i: usize| t[i as int])
}

/// Tags sorted by lowercase name, equal names in their given order.
pub fn sort_tags_by_lower(tags: &Vec<Tag>) -> (r: Vec<Tag>)
    ensures
        r@ == lower_sorted_tags(tags@),
{
    let mut keys: Vec<Vec<char>> = Vec::new();
    let mut i: usize = 0;
    while i < tags.len()
        invariant
            i <= tags@.len(),
            views(keys@) == lower_keys(tags@).subrange(0, i as int),
        decreases tags@.len() - i,
    {
        let k = lowercase_chars(&to_chars(tags[i].name.as_str()));
        let ghost before = keys@;
        keys.push(k);
        assert(views(keys@) == views(before).push(k@));
        assert(lower_keys(tags@).subrange(0, i + 1) == lower_keys(tags@).subrange(0, i as int).push(lowercase(tags@[i as int].name@)));
        i += 1;
    }
    assert(lower_keys(tags@).subrange(0, tags@.len() as int) == lower_keys(tags@));
    let order = key_order_exec(&keys);
    let mut r: Vec<Tag> = Vec::new();
    let mut k: usize = 0;
    while k < order.len()
        invariant
            k <= order@.len(),
            order@ == key_order(lower_keys(tags@), tags@.len() as int),
            order@.len() == tags@.len(),
            forall|j: int| 0 <= j < order@.len() ==> #[trigger] order@[j] < tags@.len(),
            r@ == order@.subrange(0, k as int).map_values(|x: usize| tags@[x as int]),
        decreases order@.len() - k,
    {
        r.push(copy_tag(&tags[order[k]]));
        assert(order@.subrange(0, k + 1).map_values(|x: usize| tags@[x as int])
            == order@.subrange(0, k as int).map_values(|x: usize| tags@[x as int]).push(tags@[order@[k as int] as int]));
        k += 1;
    }
    assert(order@.subrange(0, order@.len() as int) == order@);
    r
}

/// Lowercase forms of names.
pub open spec fn lower_names(n: Seq<Seq<char>>) -> Seq<Seq<char>> {
    n.map_values(|x: Seq<char>| lowercase(x))
}

/// Names in stable order of their lowercase forms.
pub open spec fn lower_sorted_names(n: Seq<Seq<char>>) -> Seq<Seq<char>> {
    key_order(lower_names(n), n.len() as int).map_values(|i: usize| n[i as int])
}

/// Names sorted by lowercase form, equal forms in their given order.
pub fn sort_names_by_lower(names: &Vec<String>) -> (r: Vec<String>)
    ensures
        r@.map_values(|x: String| x@) == lower_sorted_names(names@.map_values(|x: String| x@)),
{
    let ghost nv = names@.map_values(|x: String| x@);
    let mut keys: Vec<Vec<char>> = Vec::new();
    let mut i: usize = 0;
    while i < names.len()
        invariant
            i <= names@.len(),
            nv == names@.map_values(|x: String| x@),
            views(keys@) == lower_names(nv).subrange(0, i as int),
        decreases names@.len() - i,
    {
        let k = lowercase_chars(&to_chars(names[i].as_str()));
        let ghost before = keys@;
        keys.push(k);
        assert(views(keys@) == views(before).push(k@));
        assert(lower_names(nv).subrange(0, i + 1) == lower_names(nv).subrange(0, i as int).push(lowercase(nv[i as int])));
        i += 1;
    }
    assert(lower_names(nv).subrange(0, names@.len() as int) == lower_names(nv));
    let order = key_order_exec(&keys);
    let mut r: Vec<String> = Vec::new();
    let mut k: usize = 0;
    while k < order.len()
        invariant
            k <= order@.len(),
            nv == names@.map_values(|x: String| x@),
            order@ == key_order(lower_names(nv), names@.len() as int),
            order@.len() == names@.len(),
            forall|j: int| 0 <= j < order@.len() ==> #[trigger] order@[j] < names@.len(),
            r@.map_values(|x: String| x@) == order@.subrange(0, k as int).map_values(|x: usize| nv[x as int]),
        decreases order@.len() - k,
    {
        let ghost before = r@;
        r.push(names[order[k]].clone());
        assert(r@.map_values(|x: String| x@) == before.map_values(|x: String| x@).push(nv[order@[k as int] as int]));
        assert(order@.subrange(0, k + 1).map_values(|x: usize| nv[x as int])
            == order@.subrange(0, k as int).map_values(|x: usize| nv[x as int]).push(nv[order@[k as int] as int]));
        k += 1;
    }
    assert(order@.subrange(0, order@.len() as int) == order@);
    r
}

/// `t` shows row `rec` with its linked tags ordered by lowercase name, as
/// event snapshots of new tag lists carry them.
pub open spec fn shows_sorted(t: Task, rec: TaskRecord, tags: Seq<Tag>) -> bool {
    &&& t.id == rec.id
    &&& t.title == rec.title
    &&& t.description == rec.description
    &&& t.status == rec.status
    &&& t.due_at == rec.due_at
    &&& t.repeat_cron == rec.repeat_cron
    &&& t.created_at == rec.created_at
    &&& t.updated_at == rec.updated_at
    &&& t.deleted_at == rec.deleted_at
    &&& t.tags@ == lower_sorted_tags(pick_tags(tags, rec.tag_ids@))
}

/// The task that row `rec` shows, its tags ordered by lowercase name.
pub fn task_of_sorted(rec: &TaskRecord, tags: &Vec<Tag>) -> (r: Task)
    ensures
        shows_sorted(r, *rec, tags@),
{
    let linked = tags_for(tags, &rec.tag_ids);
    Task {
        id: rec.id,
        title: rec.title.clone(),
        description: copy_opt(&rec.description),
        status: rec.status,
        due_at: rec.due_at,
        repeat_cron: copy_opt(&rec.repeat_cron),
        created_at: rec.created_at,
        updated_at: rec.updated_at,
        deleted_at: rec.deleted_at,
        tags: sort_tags_by_lower(&linked),
    }
}


/// How to change `due_at` in a partial task update.
#[derive(Clone, Copy, Debug, PartialEq, Eq, Structural)]
pub enum DueUpdate {
    Tomorrow,
    NextMonday,
    At(i64),
}

/// How to change `repeat_cron` in a partial task update.
#[derive(Clone, Debug)]
pub enum RepeatCronUpdate {
    /// Clear the schedule (one-off task).
    Clear,
    /// Set / replace with a schedule (validated, trimmed; blank clears).
    Replace(String),
}

/// Partial update for a task. At least one optional field must be `Some`.
#[derive(Clone, Debug)]
pub struct UpdateTaskInput {
    pub id: u128,
    pub title: Option<String>,
    pub description: Option<String>,
    pub status: Option<TaskStatus>,
    pub due: Option<DueUpdate>,
    /// When `Some`, replaces the task's tags with the given names (creating tags as needed).
    pub tag_names: Option<Vec<String>>,
    pub repeat_cron: Option<RepeatCronUpdate>,
}

/// The fields of a task after a partial update, before it is written.
#[derive(Clone, Debug)]
pub struct ResolvedUpdate {
    pub title: String,
    pub description: Option<String>,
    pub status: TaskStatus,
    pub due_at: i64,
    pub repeat_cron: Option<String>,
}

/// The update sets no field at all.
pub open spec fn no_fields(input: UpdateTaskInput) -> bool {
    input.title is None && input.description is None && input.status is None && input.due is None
        && input.tag_names is None && input.repeat_cron is None
}

/// Title after the update: the given one trimmed, else the current one.
pub open spec fn want_title(cur: TaskRecord, input: UpdateTaskInput) -> Seq<char> {
    match input.title {
        Some(t) => trim(t@),
        None => cur.title@,
    }
}

/// Description after the update: the given one normalized, else the
/// current one.
pub open spec fn want_desc(cur: TaskRecord, input: UpdateTaskInput) -> Option<Seq<char>> {
    match input.description {
        Some(d) => desc_norm(Some(d@)),
        None => opt_view(cur.description),
    }
}

/// Status after the update.
pub open spec fn want_status(cur: TaskRecord, input: UpdateTaskInput) -> TaskStatus {
    match input.status {
        Some(s) => s,
        None => cur.status,
    }
}

/// Due time after the update; a move (tomorrow, next Monday) gives
/// `moved`, the due time that move computed, or nothing when it found none.
pub open spec fn want_due(cur: TaskRecord, input: UpdateTaskInput, moved: Option<i64>) -> Option<i64> {
    match input.due {
        None => Some(cur.due_at),
        Some(DueUpdate::At(d)) => Some(d),
        Some(_) => moved,
    }
}

/// Schedule after the update, or croner's error for an invalid one.
pub open spec fn want_cron(cur: TaskRecord, input: UpdateTaskInput) -> Result<Option<Seq<char>>, Seq<char>> {
    match input.repeat_cron {
        None => Ok(opt_view(cur.repeat_cron)),
        Some(RepeatCronUpdate::Clear) => Ok(None),
        Some(RepeatCronUpdate::Replace(e)) => cron_normal(Some(e@)),
    }
}

/// Error text when a due move finds no local time.
pub open spec fn no_local_time() -> Seq<char> {
    "no valid local time for the new due date"@
}

/// Resolves the fields of a partial update against row `cur`: a blank new
/// title, a move that finds no time and an invalid schedule are refused, in
/// that order.
pub fn resolve_update_fields(cur: &TaskRecord, input: &UpdateTaskInput, moved: Option<i64>) -> (r: Result<ResolvedUpdate, Error>)
    ensures
        input.title matches Some(t) && trim(t@).len() == 0 ==> r matches Err(Error::EmptyTitle),
        r matches Ok(u) ==> {
            &&& u.title@ == want_title(*cur, *input)
            &&& opt_view(u.description) == want_desc(*cur, *input)
            &&& u.status == want_status(*cur, *input)
            &&& want_due(*cur, *input, moved) == Some(u.due_at)
            &&& want_cron(*cur, *input) == Ok::<Option<Seq<char>>, Seq<char>>(opt_view(u.repeat_cron))
        },
        r is Ok <==> !(input.title matches Some(t) && trim(t@).len() == 0) && want_due(*cur, *input, moved) is Some
            && want_cron(*cur, *input) is Ok,
        r matches Err(e) ==> {
            ||| (e is EmptyTitle && (input.title matches Some(t) && trim(t@).len() == 0))
            ||| (e matches Error::InvalidDueAt(m) && m@ == no_local_time() && want_due(*cur, *input, moved) is None)
            ||| (e matches Error::InvalidCron(m) && want_cron(*cur, *input) == Err::<Option<Seq<char>>, Seq<char>>(m@))
        },
{
    let title = match &input.title {
        Some(t) => {
            let tt = trim_str(t.as_str());
            if tt.as_str().unicode_len() == 0 {
                return Err(Error::EmptyTitle);
            }
            tt
        },
        None => cur.title.clone(),
    };
    let description = match &input.description {
        Some(d) => normalize_description(&Some(d.clone())),
        None => copy_opt(&cur.description),
    };
    let status = match input.status {
        Some(s) => s,
        None => cur.status,
    };
    let due_at = match input.due {
        None => cur.due_at,
        Some(DueUpdate::At(d)) => d,
        Some(_) => match moved {
            Some(d) => d,
            None => {
                return Err(Error::InvalidDueAt(crate::text::from_chars(&to_chars("no valid local time for the new due date"))));
            },
        },
    };
    let repeat_cron = match &input.repeat_cron {
        None => copy_opt(&cur.repeat_cron),
        Some(RepeatCronUpdate::Clear) => None,
        Some(RepeatCronUpdate::Replace(e)) => normalize_cron(Some(e.as_str()))?,
    };
    Ok(ResolvedUpdate { title, description, status, due_at, repeat_cron })
}

/// The schedule the next occurrence is spawned with when an update
/// completes a task: the one set by the update as given (not trimmed), none
/// when the update clears it, else the current one.
pub open spec fn spawn_cron(cur: TaskRecord, input: UpdateTaskInput) -> Option<Seq<char>> {
    match input.repeat_cron {
        Some(RepeatCronUpdate::Clear) => None,
        Some(RepeatCronUpdate::Replace(e)) => Some(e@),
        None => opt_view(cur.repeat_cron),
    }
}

/// One recorded change when `old` and `new` differ, none otherwise.
pub open spec fn change_if(field: TaskField, old: FieldView, new: FieldView) -> Seq<ChangeView> {
    if old != new {
        seq![ChangeView { field, old, new }]
    } else {
        Seq::empty()
    }
}

/// The changes an update records, field by field in this order: title,
/// description, status, due time, schedule, and the tag names when new ones
/// were given.
pub open spec fn update_changes(
    cur: TaskRecord,
    old_names: Seq<Seq<char>>,
    title: Seq<char>,
    desc: Option<Seq<char>>,
    status: TaskStatus,
    due: i64,
    stored_cron: Option<Seq<char>>,
    new_names: Option<Seq<Seq<char>>>,
) -> Seq<ChangeView> {
    change_if(TaskField::Title, FieldView::Text(cur.title@), FieldView::Text(title))
        + change_if(TaskField::Description, opt_text(opt_view(cur.description)), opt_text(desc))
        + change_if(TaskField::Status, FieldView::Text(crate::models::status_str(cur.status)),
            FieldView::Text(crate::models::status_str(status)))
        + change_if(TaskField::DueAt, FieldView::Time(cur.due_at), FieldView::Time(due))
        + change_if(TaskField::RepeatCron, opt_text(opt_view(cur.repeat_cron)), opt_text(stored_cron))
        + match new_names {
            Some(n) => change_if(TaskField::Tags, FieldView::Names(old_names), FieldView::Names(n)),
            None => Seq::empty(),
        }
}

/// Whether two optional strings hold the same text.
pub fn opt_eq(a: &Option<String>, b: &Option<String>) -> (r: bool)
    ensures
        r == (opt_view(*a) == opt_view(*b)),
{
    match (a, b) {
        (Some(x), Some(y)) => crate::text::str_eq(x.as_str(), y.as_str()),
        (None, None) => true,
        _ => false,
    }
}

/// Whether two lists of names hold the same texts.
pub fn names_eq(a: &Vec<String>, b: &Vec<String>) -> (r: bool)
    ensures
        r == (a@.map_values(|x: String| x@) == b@.map_values(|x: String| x@)),
{
    let ghost av = a@.map_values(|x: String| x@);
    let ghost bv = b@.map_values(|x: String| x@);
    if a.len() != b.len() {
        assert(av.len() != bv.len());
        return false;
    }
    let mut i: usize = 0;
    while i < a.len()
        invariant
            a@.len() == b@.len(),
            i <= a@.len(),
            av == a@.map_values(|x: String| x@),
            bv == b@.map_values(|x: String| x@),
            forall|k: int| 0 <= k < i ==> av[k] == bv[k],
        decreases a@.len() - i,
    {
        if !crate::text::str_eq(a[i].as_str(), b[i].as_str()) {
            assert(av[i as int] != bv[i as int]);
            return false;
        }
        i += 1;
    }
    assert(av =~= bv);
    true
}

fn names_value(n: &Vec<String>) -> (r: FieldValue)
    ensures
        crate::store::field_view(r) == FieldView::Names(n@.map_values(|x: String| x@)),
{
    let mut c: Vec<String> = Vec::new();
    let mut i: usize = 0;
    while i < n.len()
        invariant
            i <= n@.len(),
            c@.map_values(|x: String| x@) == n@.subrange(0, i as int).map_values(|x: String| x@),
        decreases n@.len() - i,
    {
        let ghost before = c@;
        c.push(n[i].clone());
        assert(c@.map_values(|x: String| x@) == before.map_values(|x: String| x@).push(n@[i as int]@));
        assert(n@.subrange(0, i + 1).map_values(|x: String| x@) == n@.subrange(0, i as int).map_values(|x: String| x@).push(n@[i as int]@));
        i += 1;
    }
    assert(n@.subrange(0, n@.len() as int) == n@);
    FieldValue::Names(c)
}

/// The changes a partial update records (see [`update_changes`]).
#[verifier::rlimit(50)]
#[verifier::spinoff_prover]
pub fn diff_task_update(
    cur: &TaskRecord,
    old_names: &Vec<String>,
    res: &ResolvedUpdate,
    stored_cron: &Option<String>,
    new_names: &Option<Vec<String>>,
) -> (r: Vec<FieldChange>)
    ensures
        change_views(r@) == update_changes(*cur, old_names@.map_values(|x: String| x@), res.title@,
            opt_view(res.description), res.status, res.due_at, opt_view(*stored_cron), match *new_names {
                Some(n) => Some(n@.map_values(|x: String| x@)),
                None => None,
            }),
{
    let mut changes: Vec<FieldChange> = Vec::new();
    let ghost mut expect: Seq<ChangeView> = Seq::empty();
    if !crate::text::str_eq(cur.title.as_str(), res.title.as_str()) {
        changes.push(FieldChange { field: TaskField::Title, old: FieldValue::Text(cur.title.clone()), new: FieldValue::Text(res.title.clone()) });
    }
    proof {
        expect = change_if(TaskField::Title, FieldView::Text(cur.title@), FieldView::Text(res.title@));
        assert(change_views(changes@) == expect);
    }
    if !opt_eq(&cur.description, &res.description) {
        let ghost before = changes@;
        changes.push(FieldChange { field: TaskField::Description, old: opt_value(&cur.description), new: opt_value(&res.description) });
        assert(change_views(changes@) == change_views(before).push(change_view(changes@.last())));
    }
    proof {
        expect = expect + change_if(TaskField::Description, opt_text(opt_view(cur.description)), opt_text(opt_view(res.description)));
        assert(change_views(changes@) == expect);
    }
    if cur.status != res.status {
        let ghost before = changes@;
        changes.push(FieldChange { field: TaskField::Status, old: status_value(cur.status), new: status_value(res.status) });
        assert(change_views(changes@) == change_views(before).push(change_view(changes@.last())));
    }
    proof {
        let e = change_if(TaskField::Status, FieldView::Text(crate::models::status_str(cur.status)),
            FieldView::Text(crate::models::status_str(res.status)));
        if cur.status == res.status {
            assert(e.len() == 0);
        } else {
            crate::models::lemma_status_round_trip(cur.status);
            crate::models::lemma_status_round_trip(res.status);
        }
        expect = expect + e;
        assert(change_views(changes@) == expect);
    }
    if cur.due_at != res.due_at {
        let ghost before = changes@;
        changes.push(FieldChange { field: TaskField::DueAt, old: FieldValue::Time(cur.due_at), new: FieldValue::Time(res.due_at) });
        assert(change_views(changes@) == change_views(before).push(change_view(changes@.last())));
    }
    proof {
        expect = expect + change_if(TaskField::DueAt, FieldView::Time(cur.due_at), FieldView::Time(res.due_at));
        assert(change_views(changes@) == expect);
    }
    if !opt_eq(&cur.repeat_cron, stored_cron) {
        let ghost before = changes@;
        changes.push(FieldChange { field: TaskField::RepeatCron, old: opt_value(&cur.repeat_cron), new: opt_value(stored_cron) });
        assert(change_views(changes@) == change_views(before).push(change_view(changes@.last())));
    }
    proof {
        expect = expect + change_if(TaskField::RepeatCron, opt_text(opt_view(cur.repeat_cron)), opt_text(opt_view(*stored_cron)));
        assert(change_views(changes@) == expect);
    }
    match new_names {
        Some(n) => {
            if !names_eq(old_names, n) {
                let ghost before = changes@;
                changes.push(FieldChange { field: TaskField::Tags, old: names_value(old_names), new: names_value(n) });
                assert(change_views(changes@) == change_views(before).push(change_view(changes@.last())));
            }
            proof {
                expect = expect + change_if(TaskField::Tags, FieldView::Names(old_names@.map_values(|x: String| x@)),
                    FieldView::Names(n@.map_values(|x: String| x@)));
                assert(change_views(changes@) == expect);
            }
        },
        None => {
            proof {
                assert(expect + Seq::<ChangeView>::empty() == expect);
            }
        },
    }
    changes
}


/// The tag of `tags` with key `key` (the only one, in a sorted list).
pub open spec fn tag_named(tags: Seq<Tag>, key: Seq<char>) -> Tag {
    tags[choose|k: int| tag_at_key(tags, key, k)]
}

/// The tag each name resolves to in `tags`.
pub open spec fn resolved_tag_seq(tags: Seq<Tag>, names: Seq<String>) -> Seq<Tag> {
    names.map_values(|n: String| tag_named(tags, name_key(n)))
}

/// The names of tags.
pub open spec fn tag_names_of(t: Seq<Tag>) -> Seq<Seq<char>> {
    t.map_values(|x: Tag| x.name@)
}

/// A tag found in a sorted list by its key is the one [`tag_named`] gives.
pub proof fn lemma_tag_named(tags: Seq<Tag>, x: Tag)
    requires
        tags_sorted(tags),
        tags.contains(x),
    ensures
        tag_named(tags, tag_key(x)) == x,
{
    let k = choose|k: int| 0 <= k < tags.len() && tags[k] == x;
    assert(tag_at_key(tags, tag_key(x), k));
    let j = choose|j: int| tag_at_key(tags, tag_key(x), j);
    if j != k {
        crate::store::lemma_tag_keys_distinct(tags, j, k);
    }
}

/// The names of a list of tags.
pub fn names_of(tags: &Vec<Tag>) -> (r: Vec<String>)
    ensures
        r@.map_values(|x: String| x@) == tag_names_of(tags@),
{
    let mut r: Vec<String> = Vec::new();
    let mut i: usize = 0;
    while i < tags.len()
        invariant
            i <= tags@.len(),
            r@.map_values(|x: String| x@) == tag_names_of(tags@.subrange(0, i as int)),
        decreases tags@.len() - i,
    {
        let ghost before = r@;
        r.push(tags[i].name.clone());
        assert(r@.map_values(|x: String| x@) == before.map_values(|x: String| x@).push(tags@[i as int].name@));
        assert(tag_names_of(tags@.subrange(0, i + 1)) == tag_names_of(tags@.subrange(0, i as int)).push(tags@[i as int].name@));
        i += 1;
    }
    assert(tags@.subrange(0, tags@.len() as int) == tags@);
    r
}

/// Row `new` holds the resolved fields of an update of row `cur`, with
/// schedule `stored_cron`, updated at `now`.
pub open spec fn fields_applied(
    new: TaskRecord,
    cur: TaskRecord,
    title: Seq<char>,
    desc: Option<Seq<char>>,
    status: TaskStatus,
    due: i64,
    stored_cron: Option<Seq<char>>,
    now: i64,
) -> bool {
    &&& new.id == cur.id
    &&& new.title@ == title
    &&& opt_view(new.description) == desc
    &&& new.status == status
    &&& new.due_at == due
    &&& opt_view(new.repeat_cron) == stored_cron
    &&& new.created_at == cur.created_at
    &&& new.updated_at == now
    &&& new.deleted_at == cur.deleted_at
}

/// What writing an update to row `i` does: the row holds the resolved
/// fields; with new tag names, tags are resolved as [`resolved`] says and
/// linked, else the links are kept; other rows are kept; an `updated` event
/// records the changes (see [`update_changes`]) and the task after, when
/// there are any.
pub open spec fn write_effect(
    old: TaskStore,
    new: TaskStore,
    i: int,
    title: Seq<char>,
    desc: Option<Seq<char>>,
    status: TaskStatus,
    due: i64,
    stored_cron: Option<Seq<char>>,
    names: Option<Seq<String>>,
    tag_ids: Seq<u128>,
    now: i64,
    event_id: u128,
    t: Task,
) -> bool {
    let cur = old.tasks@[i];
    let rec = new.tasks@[i];
    let per = match names {
        Some(n) => resolved_tag_seq(new.tags@, n),
        None => Seq::empty(),
    };
    let changes = update_changes(cur, tag_names_of(pick_tags(old.tags@, cur.tag_ids@)), title, desc, status, due,
        stored_cron, match names {
            Some(n) => Some(lower_sorted_names(tag_names_of(per))),
            None => None,
        });
    &&& new.tasks@.len() == old.tasks@.len()
    &&& forall|j: int| 0 <= j < old.tasks@.len() && j != i ==> #[trigger] new.tasks@[j] == old.tasks@[j]
    &&& fields_applied(rec, cur, title, desc, status, due, stored_cron, now)
    &&& match names {
        Some(n) => resolved(old.tags@, new.tags@, n, tag_ids, now, rec.tag_ids@, n.len() as int),
        None => new.tags@ == old.tags@ && rec.tag_ids@ == cur.tag_ids@,
    }
    &&& shows(t, rec, new.tags@)
    &&& new.applied@ == old.applied@
    &&& new.device_id == old.device_id
    &&& changes.len() == 0 ==> new.events@ == old.events@
    &&& changes.len() > 0 ==> {
        &&& new.events@.len() == old.events@.len() + 1
        &&& new.events@.drop_last() == old.events@
        &&& new.events@.last().seq == next_seq(old.events@)
        &&& new.events@.last().id == event_id
        &&& new.events@.last().task_id == cur.id
        &&& new.events@.last().event_type == TaskEventType::Updated
        &&& new.events@.last().created_at == now
        &&& new.events@.last().origin@ == local_origin(old)
        &&& (new.events@.last().payload matches EventPayload::Updated { changes: c, task }
            && change_views(c@) == changes
            && task.id == rec.id && task.title == rec.title && task.description == rec.description
            && task.status == rec.status && task.due_at == rec.due_at && task.repeat_cron == rec.repeat_cron
            && task.created_at == rec.created_at && task.updated_at == rec.updated_at && task.deleted_at is None
            && task.tags@ == match names {
                Some(n) => lower_sorted_tags(per),
                None => pick_tags(new.tags@, rec.tag_ids@),
            })
    }
}

/// The view of optional new tag names.
pub open spec fn names_view(n: Option<Vec<String>>) -> Option<Seq<String>> {
    match n {
        Some(v) => Some(v@),
        None => None,
    }
}

/// New tag names, when given, resolve: none is blank, and the ids for new
/// tags are fresh.
pub open spec fn tag_names_ok(tags: Seq<Tag>, names: Option<Seq<String>>, ids: Seq<u128>) -> bool {
    names matches Some(n) ==> names_nonblank(n) && ids_fresh(tags, ids)
}

/// No name is blank.
pub open spec fn names_nonblank(n: Seq<String>) -> bool {
    forall|k: int| 0 <= k < n.len() ==> trim(#[trigger] n[k]@).len() > 0
}

/// Writes the resolved fields of an update to live row `i`, with schedule
/// `stored_cron`, replacing its tags when `tag_names` is given (new tags get
/// the ids in `tag_ids`), and logs the changes as event `event_id`.
pub fn write_task_update(
    store: &mut TaskStore,
    i: usize,
    res: &ResolvedUpdate,
    stored_cron: Option<String>,
    tag_names: &Option<Vec<String>>,
    tag_ids: &Vec<u128>,
    now: i64,
    event_id: u128,
) -> (r: Result<Task, Error>)
    requires
        old(store).wf(),
        i < old(store).tasks@.len(),
        old(store).tasks@[i as int].deleted_at is None,
        tag_names matches Some(n) ==> tag_ids@.len() == n@.len(),
    ensures
        final(store).wf(),
        r is Err ==> *final(store) == *old(store),
        r matches Err(e) ==> ((e matches Error::Message(m) && m@ == tag_name_required()) || e is Database),
        r is Ok ==> (*tag_names matches Some(n) ==> forall|k: int| 0 <= k < n@.len() ==> trim(#[trigger] n@[k]@).len() > 0),
        tag_names_ok(old(store).tags@, names_view(*tag_names), tag_ids@) && log_room(old(store).events@, event_id) ==> r is Ok,
        r matches Ok(t) ==> write_effect(*old(store), *final(store), i as int, res.title@, opt_view(res.description),
            res.status, res.due_at, opt_view(stored_cron), match *tag_names {
                Some(n) => Some(n@),
                None => None,
            }, tag_ids@, now, event_id, t),
{
    let cur = copy_record(&store.tasks[i]);
    let old_linked = tags_for(&store.tags, &cur.tag_ids);
    let old_names = names_of(&old_linked);
    let ghost per_g: Seq<Tag> = Seq::empty();
    let (new_tags, links, after_tags, new_names) = match tag_names {
        Some(names) => {
            proof {
                assert(names_view(*tag_names) == Some(names@));
            }
            let (t, l, per) = resolve_tags(&store.tags, names, tag_ids, now)?;
            proof {
                per_g = per@;
                assert forall|k: int| 0 <= k < per@.len() implies per@[k] == #[trigger] resolved_tag_seq(t@, names@)[k] by {
                    lemma_tag_named(t@, per@[k]);
                }
                assert(per@ == resolved_tag_seq(t@, names@));
            }
            let nm = names_of(&per);
            let sorted_names = sort_names_by_lower(&nm);
            let sorted_tags = sort_tags_by_lower(&per);
            (t, l, sorted_tags, Some(sorted_names))
        },
        None => (copy_tags(&store.tags), copy_ids(&cur.tag_ids), tags_for(&store.tags, &cur.tag_ids), None),
    };
    let changes = diff_task_update(&cur, &old_names, res, &stored_cron, &new_names);
    let mut seq: i64 = 0;
    if changes.len() > 0 {
        seq = event_slot(&store.events, event_id)?;
    }
    let rec = TaskRecord {
        id: cur.id,
        title: res.title.clone(),
        description: copy_opt(&res.description),
        status: res.status,
        due_at: res.due_at,
        repeat_cron: stored_cron,
        created_at: cur.created_at,
        updated_at: now,
        deleted_at: None,
        tag_ids: links,
    };
    let snapshot = Task {
        id: rec.id,
        title: rec.title.clone(),
        description: copy_opt(&rec.description),
        status: rec.status,
        due_at: rec.due_at,
        repeat_cron: copy_opt(&rec.repeat_cron),
        created_at: rec.created_at,
        updated_at: rec.updated_at,
        deleted_at: None,
        tags: after_tags,
    };
    let result = task_of(&rec, &new_tags);
    let task_id = rec.id;
    store.tags = new_tags;
    store.tasks.set(i, rec);
    if changes.len() > 0 {
        push_event(store, seq, event_id, task_id, TaskEventType::Updated,
            EventPayload::Updated { changes, task: snapshot }, now);
    }
    Ok(result)
}


/// Whether an update completes a task that was not complete.
pub open spec fn becomes_complete(cur: TaskRecord, input: UpdateTaskInput) -> bool {
    want_status(cur, input) == TaskStatus::Complete && cur.status != TaskStatus::Complete
}

/// What a successful partial update of live row `i` does. When it completes
/// the task and a schedule is in play ([`spawn_cron`]), the next occurrence
/// is first spawned at `next_due`, with the resolved title and description
/// and the current due time, tags and id as its source, and the row keeps
/// no schedule; then the fields are written as [`write_effect`] says.
pub open spec fn update_effect(
    old: TaskStore,
    new: TaskStore,
    i: int,
    input: UpdateTaskInput,
    moved: Option<i64>,
    res: StatusUpdateResult,
    now: i64,
    next_due: i64,
    spawn_id: u128,
    spawn_event_id: u128,
    event_id: u128,
    tag_ids: Seq<u128>,
) -> bool {
    let cur = old.tasks@[i];
    let names = match input.tag_names {
        Some(n) => Some(n@),
        None => None,
    };
    let title = want_title(cur, input);
    let desc = want_desc(cur, input);
    let status = want_status(cur, input);
    let due = want_due(cur, input, moved)->Some_0;
    let cron = want_cron(cur, input)->Ok_0;
    if becomes_complete(cur, input) && spawn_cron(cur, input) is Some {
        exists|mid: TaskStore, src: TaskRecord| {
            &&& res.spawned is Some
            &&& src.id == cur.id && src.title@ == title && opt_view(src.description) == desc
            &&& src.due_at == cur.due_at && opt_view(src.repeat_cron) == spawn_cron(cur, input)
            &&& src.tag_ids@ == cur.tag_ids@
            &&& #[trigger] spawn_effect(old, mid, src, res.spawned->Some_0, now, next_due, spawn_id, spawn_event_id)
            &&& write_effect(mid, new, i, title, desc, status, due, None, names, tag_ids, now, event_id, res.task)
        }
    } else {
        res.spawned is None && write_effect(old, new, i, title, desc, status, due, cron, names, tag_ids, now,
            event_id, res.task)
    }
}

/// When a partial update of live row `i` succeeds: the title, due move and
/// schedule resolve, the tag names resolve, and there is room in the log
/// (for two events, and a free row id, when it spawns the next occurrence).
pub open spec fn update_ok(
    old: TaskStore,
    i: int,
    input: UpdateTaskInput,
    moved: Option<i64>,
    next_due: Result<i64, Error>,
    spawn_id: u128,
    spawn_event_id: u128,
    event_id: u128,
    tag_ids: Seq<u128>,
) -> bool {
    let cur = old.tasks@[i];
    &&& !(input.title matches Some(t) && trim(t@).len() == 0)
    &&& want_due(cur, input, moved) is Some
    &&& want_cron(cur, input) is Ok
    &&& tag_names_ok(old.tags@, names_view(input.tag_names), tag_ids)
    &&& if becomes_complete(cur, input) && spawn_cron(cur, input) is Some {
        &&& next_due is Ok
        &&& !task_id_taken(old.tasks@, spawn_id)
        &&& log_room_two(old.events@, spawn_event_id, event_id)
    } else {
        log_room(old.events@, event_id)
    }
}

/// Applies a partial update to the live task `input.id` at `now`. `moved`
/// is the due time a requested move (tomorrow, next Monday) computed;
/// `next_due` is the next occurrence of the schedule in play after the due
/// time or `now`, whichever is later, used when the update completes a
/// recurring task; new tags get the ids in `tag_ids`.
pub fn update_task_at(
    store: &mut TaskStore,
    input: &UpdateTaskInput,
    now: i64,
    moved: Option<i64>,
    next_due: Result<i64, Error>,
    spawn_id: u128,
    spawn_event_id: u128,
    event_id: u128,
    tag_ids: &Vec<u128>,
) -> (r: Result<StatusUpdateResult, Error>)
    requires
        old(store).wf(),
        input.tag_names matches Some(n) ==> tag_ids@.len() == n@.len(),
    ensures
        final(store).wf(),
        no_fields(*input) ==> *final(store) == *old(store) && r matches Err(Error::NoUpdateFields),
        !no_fields(*input) && !has_live(old(store).tasks@, input.id) ==> *final(store) == *old(store)
            && (r matches Err(e) && e matches Error::TaskNotFound(m) && m@ == crate::ids::uuid_text(input.id)),
        forall|i: int| #[trigger] first_live(old(store).tasks@, input.id, i) && !no_fields(*input) ==> {
            let cur = old(store).tasks@[i];
            &&& (input.title is Some && trim(input.title->Some_0@).len() == 0) ==> *final(store) == *old(store)
                && r is Err && r->Err_0 is EmptyTitle
            &&& r is Ok ==> update_effect(*old(store), *final(store), i, *input, moved, r->Ok_0, now,
                match next_due { Ok(d) => d, Err(_) => 0 }, spawn_id, spawn_event_id, event_id, tag_ids@)
            &&& r is Ok ==> !(becomes_complete(cur, *input) && spawn_cron(cur, *input) is Some && next_due is Err)
            &&& update_ok(*old(store), i, *input, moved, next_due, spawn_id, spawn_event_id, event_id, tag_ids@) ==> r is Ok
            &&& r is Ok ==> !(input.title matches Some(t) && trim(t@).len() == 0) && want_due(cur, *input, moved) is Some
                && want_cron(cur, *input) is Ok
            &&& r matches Err(e) ==> {
                ||| (e is EmptyTitle && (input.title matches Some(t) && trim(t@).len() == 0))
                ||| (e is InvalidDueAt && want_due(cur, *input, moved) is None)
                ||| (e is InvalidCron && want_cron(cur, *input) is Err)
                ||| next_due == Err::<i64, Error>(e)
                ||| e is Database
                ||| (e matches Error::Message(m) && m@ == tag_name_required())
            }
        },
{
    if input.title.is_none() && input.description.is_none() && input.status.is_none() && input.due.is_none()
        && input.tag_names.is_none() && input.repeat_cron.is_none() {
        return Err(Error::NoUpdateFields);
    }
    let i = match find_live(&store.tasks, input.id) {
        Some(i) => i,
        None => {
            return Err(Error::TaskNotFound(crate::ids::id_string(input.id)));
        },
    };
    proof {
        assert forall|j: int| #[trigger] first_live(old(store).tasks@, input.id, j) implies j == i by {
            lemma_first_live_unique(old(store).tasks@, input.id, i as int, j);
        }
    }
    let cur = copy_record(&store.tasks[i]);
    let res = resolve_update_fields(&cur, input, moved)?;
    let becoming_complete = res.status == TaskStatus::Complete && cur.status != TaskStatus::Complete;
    let cron_for_spawn: Option<String> = match &input.repeat_cron {
        Some(RepeatCronUpdate::Clear) => None,
        Some(RepeatCronUpdate::Replace(e)) => Some(e.clone()),
        None => copy_opt(&cur.repeat_cron),
    };
    let ghost old_store = *store;
    if becoming_complete && cron_for_spawn.is_some() {
        let d = match next_due {
            Ok(d) => d,
            Err(e) => {
                return Err(e);
            },
        };
        let src = TaskRecord {
            id: cur.id,
            title: res.title.clone(),
            description: copy_opt(&res.description),
            status: cur.status,
            due_at: cur.due_at,
            repeat_cron: cron_for_spawn,
            created_at: cur.created_at,
            updated_at: cur.updated_at,
            deleted_at: cur.deleted_at,
            tag_ids: copy_ids(&cur.tag_ids),
        };
        let spawned = spawn_next_at(store, &src, now, d, spawn_id, spawn_event_id)?;
        let ghost mid = *store;
        proof {
            lemma_log_push(old_store.events@, mid.events@);
            assert(mid.tasks@[i as int] == old_store.tasks@[i as int]);
        }
        let task = write_task_update(store, i, &res, None, &input.tag_names, tag_ids, now, event_id)?;
        let out = StatusUpdateResult { task, spawned: Some(spawned) };
        proof {
            assert(spawn_effect(old_store, mid, src, out.spawned->Some_0, now, d, spawn_id, spawn_event_id));
            assert(update_effect(old_store, *store, i as int, *input, moved, out, now, d, spawn_id, spawn_event_id,
                event_id, tag_ids@));
        }
        Ok(out)
    } else {
        let stored = copy_opt(&res.repeat_cron);
        let task = write_task_update(store, i, &res, stored, &input.tag_names, tag_ids, now, event_id)?;
        let out = StatusUpdateResult { task, spawned: None };
        proof {
            assert(update_effect(old_store, *store, i as int, *input, moved, out, now,
                match next_due { Ok(d) => d, Err(_) => 0 }, spawn_id, spawn_event_id, event_id, tag_ids@));
        }
        Ok(out)
    }
}

/// The due time a preset move of `cur` gives: tomorrow and next Monday
/// count from the local date of its current due time and keep its local
/// time of day (see [`crate::time_helpers::moved_tomorrow`]); no move for
/// other updates.
pub open spec fn due_moved(cur: TaskRecord, input: UpdateTaskInput, moved: Option<i64>) -> bool {
    match input.due {
        Some(DueUpdate::Tomorrow) => moved matches Some(t)
            ==> crate::time_helpers::moved_tomorrow(t as int, cur.due_at as int, cur.due_at as int),
        Some(DueUpdate::NextMonday) => moved matches Some(t)
            ==> crate::time_helpers::moved_next_monday(t as int, cur.due_at as int, cur.due_at as int),
        _ => moved is None,
    }
}

/// Applies a partial update to the live task `input.id`, now, in one step:
/// a new title is trimmed and must not be blank; a new description is
/// trimmed (blank clears it); a due move (tomorrow, next Monday) counts
/// from the current due date and keeps its local time of day; a new schedule must parse (blank clears it); new tag
/// names replace the tags. Completing a recurring task first adds its next
/// occurrence and leaves the completed row without a schedule. An `updated`
/// event records what changed. An update that sets nothing is refused.
pub fn update_task(store: &mut TaskStore, input: &UpdateTaskInput) -> (r: Result<StatusUpdateResult, Error>)
    requires
        old(store).wf(),
    ensures
        final(store).wf(),
        no_fields(*input) ==> *final(store) == *old(store) && r matches Err(Error::NoUpdateFields),
        !no_fields(*input) && !has_live(old(store).tasks@, input.id) ==> *final(store) == *old(store)
            && (r matches Err(e) && e matches Error::TaskNotFound(m) && m@ == crate::ids::uuid_text(input.id)),
        forall|i: int| #[trigger] first_live(old(store).tasks@, input.id, i) && !no_fields(*input) ==> {
            &&& (input.title is Some && trim(input.title->Some_0@).len() == 0) ==> *final(store) == *old(store)
                && r is Err && r->Err_0 is EmptyTitle
            &&& r is Ok ==> exists|moved: Option<i64>, now: i64, next_due: i64, spawn_id: u128,
                spawn_event_id: u128, event_id: u128, tag_ids: Seq<u128>|
                due_moved(old(store).tasks@[i], *input, moved) &&
                #[trigger] update_effect(*old(store), *final(store), i, *input, moved, r->Ok_0, now, next_due, spawn_id,
                    spawn_event_id, event_id, tag_ids) && (becomes_complete(old(store).tasks@[i], *input)
                    && spawn_cron(old(store).tasks@[i], *input) is Some ==> occurrence_found(
                    spawn_cron(old(store).tasks@[i], *input)->Some_0, spawn_after(old(store).tasks@[i], now), next_due))
            &&& (r matches Err(e) && e is InvalidCron) ==> (want_cron(old(store).tasks@[i], *input) is Err
                || (becomes_complete(old(store).tasks@[i], *input) && spawn_cron(old(store).tasks@[i], *input) is Some))
        },
        r matches Err(e) ==> {
            ||| (e is NoUpdateFields && no_fields(*input))
            ||| (e is TaskNotFound && !has_live(old(store).tasks@, input.id))
            ||| (e is EmptyTitle && (input.title matches Some(t) && trim(t@).len() == 0))
            ||| (e is InvalidDueAt && (input.due matches Some(d) && !(d is At)))
            ||| e is InvalidCron
            ||| e is Database
            ||| (e matches Error::Message(m) && (m@ == tag_name_required() || m@ == crate::tags::clock_out_of_range()))
        },
{
    if input.title.is_none() && input.description.is_none() && input.status.is_none() && input.due.is_none()
        && input.tag_names.is_none() && input.repeat_cron.is_none() {
        return Err(Error::NoUpdateFields);
    }
    let i = match find_live(&store.tasks, input.id) {
        Some(i) => i,
        None => {
            return Err(Error::TaskNotFound(crate::ids::id_string(input.id)));
        },
    };
    if let Some(t) = &input.title {
        if trim_str(t.as_str()).as_str().unicode_len() == 0 {
            proof {
                assert forall|j: int| #[trigger] first_live(old(store).tasks@, input.id, j) implies j == i by {
                    lemma_first_live_unique(old(store).tasks@, input.id, i as int, j);
                }
            }
            return Err(Error::EmptyTitle);
        }
    }
    let now = current_time()?;
    let due = store.tasks[i].due_at;
    let moved: Option<i64> = match input.due {
        Some(DueUpdate::Tomorrow) => crate::time_helpers::push_to_tomorrow_at(due, due),
        Some(DueUpdate::NextMonday) => crate::time_helpers::next_monday_at(due, due),
        _ => None,
    };
    let status = match input.status {
        Some(s) => s,
        None => store.tasks[i].status,
    };
    let completing = status == TaskStatus::Complete && store.tasks[i].status != TaskStatus::Complete;
    let cron_for_spawn: Option<String> = match &input.repeat_cron {
        Some(RepeatCronUpdate::Clear) => None,
        Some(RepeatCronUpdate::Replace(e)) => Some(e.clone()),
        None => copy_opt(&store.tasks[i].repeat_cron),
    };
    let next_due: Result<i64, Error> = match &cron_for_spawn {
        Some(c) => {
            if completing {
                spawn_due(c, &store.tasks[i], now)
            } else {
                Ok(0)
            }
        },
        None => Ok(0),
    };
    let tag_ids = match &input.tag_names {
        Some(n) => fresh_ids(n.len()),
        None => Vec::new(),
    };
    let spawn_id = new_id();
    let spawn_event_id = new_id();
    let event_id = new_id();
    let ghost nd = next_due;
    let r = update_task_at(store, input, now, moved, next_due, spawn_id, spawn_event_id, event_id, &tag_ids);
    proof {
        assert forall|j: int| #[trigger] first_live(old(store).tasks@, input.id, j) implies j == i by {
            lemma_first_live_unique(old(store).tasks@, input.id, i as int, j);
        }
        assert(due_moved(old(store).tasks@[i as int], *input, moved));
        let d = match nd { Ok(d) => d, Err(_) => 0 };
        assert forall|j: int| #[trigger] first_live(old(store).tasks@, input.id, j) && !no_fields(*input) implies
            (r is Ok ==> exists|moved: Option<i64>, now: i64, next_due: i64, spawn_id: u128,
                spawn_event_id: u128, event_id: u128, tag_ids: Seq<u128>|
                due_moved(old(store).tasks@[j], *input, moved) &&
                #[trigger] update_effect(*old(store), *store, j, *input, moved, r->Ok_0, now, next_due, spawn_id,
                    spawn_event_id, event_id, tag_ids) && (becomes_complete(old(store).tasks@[j], *input)
                    && spawn_cron(old(store).tasks@[j], *input) is Some ==> occurrence_found(
                    spawn_cron(old(store).tasks@[j], *input)->Some_0, spawn_after(old(store).tasks@[j], now),
                    next_due))) by {
            if r is Ok {
                let res = r->Ok_0;
                assert(update_effect(*old(store), *store, j, *input, moved, res, now, d, spawn_id,
                    spawn_event_id, event_id, tag_ids@));
            }
        }
    }
    r
}


/// Where to move a task's due date.
#[derive(Clone, Copy, Debug, PartialEq, Eq, Structural)]
pub enum RescheduleMode {
    Today,
    Tomorrow,
    NextMonday,
    FirstMondayNextMonth,
    Custom,
}

/// Error text of a custom reschedule without a due time.
pub open spec fn custom_needs_due() -> Seq<char> {
    "custom reschedule requires due_at"@
}

/// The due time `t` a reschedule to `mode` gives, for a task due at `due`,
/// at time `now`: the presets keep the local time of day of `due` on a date
/// counted from the local date of `now`; a custom time is taken as given.
pub open spec fn rescheduled_to(t: i64, due: i64, now: i64, mode: RescheduleMode, custom: Option<i64>) -> bool {
    match mode {
        RescheduleMode::Today => crate::time_helpers::moved_today(t as int, due as int, now as int),
        RescheduleMode::Tomorrow => crate::time_helpers::moved_tomorrow(t as int, due as int, now as int),
        RescheduleMode::NextMonday => crate::time_helpers::moved_next_monday(t as int, due as int, now as int),
        RescheduleMode::FirstMondayNextMonth => crate::time_helpers::moved_first_monday(t as int, due as int, now as int),
        RescheduleMode::Custom => custom == Some(t),
    }
}

/// Moves the live task `id`, now: to today, tomorrow, next Monday or the
/// first Monday of next month (counted from today) keeping its local time of
/// day, or to `custom_due_at`; an `updated` event records a changed due
/// time.
pub fn reschedule_task(store: &mut TaskStore, id: u128, mode: RescheduleMode, custom_due_at: Option<i64>) -> (r: Result<Task, Error>)
    requires
        old(store).wf(),
    ensures
        final(store).wf(),
        r is Err ==> *final(store) == *old(store),
        !has_live(old(store).tasks@, id) ==> (r matches Err(e) && e matches Error::TaskNotFound(m)
            && m@ == crate::ids::uuid_text(id)),
        has_live(old(store).tasks@, id) && mode == RescheduleMode::Custom && custom_due_at is None ==> (r matches Err(e)
            && e matches Error::InvalidDueAt(m) && m@ == custom_needs_due()),
        forall|i: int| #[trigger] first_live(old(store).tasks@, id, i) ==> (r matches Ok(t) ==> exists|due: i64, now: i64, event_id: u128|
            #[trigger] reschedule_effect(*old(store), *final(store), i, due, now, event_id, t)
            && rescheduled_to(due, old(store).tasks@[i].due_at, now, mode, custom_due_at)),
        r matches Err(e) ==> {
            ||| (e is TaskNotFound && !has_live(old(store).tasks@, id))
            ||| (e is InvalidDueAt && (mode == RescheduleMode::Custom ==> custom_due_at is None))
            ||| e is Database
            ||| (e matches Error::Message(m) && m@ == crate::tags::clock_out_of_range())
        },
{
    let i = match find_live(&store.tasks, id) {
        Some(i) => i,
        None => {
            return Err(Error::TaskNotFound(crate::ids::id_string(id)));
        },
    };
    proof {
        assert forall|j: int| #[trigger] first_live(old(store).tasks@, id, j) implies j == i by {
            lemma_first_live_unique(old(store).tasks@, id, i as int, j);
        }
    }
    let current = store.tasks[i].due_at;
    if let RescheduleMode::Custom = mode {
        if custom_due_at.is_none() {
            return Err(Error::InvalidDueAt(crate::text::from_chars(&to_chars("custom reschedule requires due_at"))));
        }
    }
    let now = current_time()?;
    let moved: Option<i64> = match mode {
        RescheduleMode::Today => crate::time_helpers::push_to_today_at(current, now),
        RescheduleMode::Tomorrow => crate::time_helpers::push_to_tomorrow_at(current, now),
        RescheduleMode::NextMonday => crate::time_helpers::next_monday_at(current, now),
        RescheduleMode::FirstMondayNextMonth => crate::time_helpers::first_monday_next_month_at(current, now),
        RescheduleMode::Custom => custom_due_at,
    };
    let due = match moved {
        Some(d) => d,
        None => {
            return Err(Error::InvalidDueAt(crate::text::from_chars(&to_chars("no valid local time for the new due date"))));
        },
    };
    proof {
        assert(rescheduled_to(due, current, now, mode, custom_due_at));
    }
    let event_id = new_id();
    reschedule_task_to(store, id, due, now, event_id)
}

/// A deleted task leaves the listing: after a delete, the deleted row is
/// not listed, and when no other live row had its id, no listed task has
/// that id.
pub proof fn lemma_deleted_not_listed(old: TaskStore, new: TaskStore, i: int, now: i64, event_id: u128)
    requires
        0 <= i < old.tasks@.len(),
        old.tasks@.len() <= usize::MAX,
        delete_effect(old, new, i, now, event_id),
    ensures
        forall|k: int| 0 <= k < live_order(new.tasks@, new.tasks@.len() as int).len()
            ==> #[trigger] live_order(new.tasks@, new.tasks@.len() as int)[k] != i,
        (forall|j: int| 0 <= j < old.tasks@.len() && j != i ==> !(#[trigger] old.tasks@[j].id == old.tasks@[i].id
            && old.tasks@[j].deleted_at is None)) ==> forall|k: int|
            0 <= k < live_order(new.tasks@, new.tasks@.len() as int).len()
                ==> new.tasks@[#[trigger] live_order(new.tasks@, new.tasks@.len() as int)[k] as int].id != old.tasks@[i].id,
{
    let n = new.tasks@.len() as int;
    lemma_live_order_rows(new.tasks@, n);
    assert forall|k: int| 0 <= k < live_order(new.tasks@, n).len() implies
        #[trigger] live_order(new.tasks@, n)[k] != i by {
        let r = live_order(new.tasks@, n)[k] as int;
        assert(new.tasks@[r].deleted_at is None);
    }
    if forall|j: int| 0 <= j < old.tasks@.len() && j != i ==> !(#[trigger] old.tasks@[j].id == old.tasks@[i].id
        && old.tasks@[j].deleted_at is None) {
        assert forall|k: int| 0 <= k < live_order(new.tasks@, n).len() implies
            new.tasks@[#[trigger] live_order(new.tasks@, n)[k] as int].id != old.tasks@[i].id by {
            let r = live_order(new.tasks@, n)[k] as int;
            assert(new.tasks@[r].deleted_at is None);
            assert(r != i);
            assert(new.tasks@[r] == old.tasks@[r]);
        }
    }
}

/// Deleting is final: once the live task `id` is deleted, no live row has
/// its id, so deleting it again is refused as not found (see
/// [`delete_task_at`]).
pub proof fn lemma_delete_leaves_no_live(old: TaskStore, new: TaskStore, id: u128, i: int, now: i64, event_id: u128)
    requires
        old.wf(),
        first_live(old.tasks@, id, i),
        delete_effect(old, new, i, now, event_id),
    ensures
        !has_live(new.tasks@, id),
{
    assert forall|j: int| 0 <= j < new.tasks@.len() && #[trigger] new.tasks@[j].id == id implies new.tasks@[j].deleted_at
        is Some by {
        if j != i {
            assert(new.tasks@[j] == old.tasks@[j]);
            if j < i {
                assert(old.tasks@[j].id != old.tasks@[i].id);
            } else {
                assert(old.tasks@[i].id != old.tasks@[j].id);
            }
        }
    }
}

} // verus!
