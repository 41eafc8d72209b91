//! Tags: listing, finding or adding by name, counting and deleting.

use vstd::prelude::*;
use crate::models::Error;
use crate::ids::{new_id, now_nanos, id_string, uuid_text};
use crate::store::{
    Tag, TaskRecord, TaskStore, tags_sorted, tag_key, tag_at_key, tag_id_taken, copy_tag,
    ensure_tag_in, tag_name_required, nocase_key,
};
use crate::order::{lex_lt, lemma_lex_transitive};
use crate::text::{trim, to_chars, from_chars};

verus! {

/// All tags, ordered by name with ASCII case ignored.
pub fn list_tags(store: &TaskStore) -> (r: Vec<Tag>)
    requires
        store.wf(),
    ensures
        r@ == store.tags@,
        tags_sorted(r@),
{
    let mut r: Vec<Tag> = Vec::new();
    let mut i: usize = 0;
    while i < store.tags.len()
        invariant
            i <= store.tags@.len(),
            r@ == store.tags@.subrange(0, i as int),
        decreases store.tags@.len() - i,
    {
        r.push(copy_tag(&store.tags[i]));
        assert(store.tags@.subrange(0, i + 1) == store.tags@.subrange(0, i as int).push(store.tags@[i as int]));
        i += 1;
    }
    assert(store.tags@.subrange(0, store.tags@.len() as int) == store.tags@);
    r
}

/// Message of the error when the clock is past the range of timestamps.
pub open spec fn clock_out_of_range() -> Seq<char> {
    "clock out of range"@
}

/// The current time, or the error for a clock past the range of timestamps.
pub fn current_time() -> (r: Result<i64, Error>)
    ensures
        r matches Err(e) ==> (e matches Error::Message(m) && m@ == clock_out_of_range()),
{
    match now_nanos() {
        Some(t) => Ok(t),
        None => Err(Error::Message(from_chars(&to_chars("clock out of range")))),
    }
}

/// Finds the tag named `name` (trimmed, ASCII case ignored), or adds it with
/// id `id`, created at `now`.
pub fn ensure_tag_at(store: &mut TaskStore, name: &str, id: u128, now: i64) -> (r: Result<Tag, Error>)
    requires
        old(store).wf(),
    ensures
        final(store).wf(),
        final(store).tasks@ == old(store).tasks@,
        final(store).events@ == old(store).events@,
        final(store).applied@ == old(store).applied@,
        trim(name@).len() == 0 ==> final(store).tags@ == old(store).tags@ && (r matches Err(
            Error::Message(m),
        ) && m@ == tag_name_required()),
        forall|k: int| trim(name@).len() > 0 && tag_at_key(old(store).tags@, nocase_key(trim(name@)), k)
            ==> final(store).tags@ == old(store).tags@ && r == Ok::<Tag, Error>(old(store).tags@[k]),
        trim(name@).len() > 0 && (forall|k: int| !tag_at_key(old(store).tags@, nocase_key(trim(name@)), k))
            && tag_id_taken(old(store).tags@, id) ==> final(store).tags@ == old(store).tags@
            && r matches Err(Error::Database(_)),
        trim(name@).len() > 0 && (forall|k: int| !tag_at_key(old(store).tags@, nocase_key(trim(name@)), k))
            && !tag_id_taken(old(store).tags@, id) ==> (r matches Ok(t) && t.id == id && t.name@ == trim(name@)
            && t.created_at == now && t.updated_at == now
            && final(store).tags@.len() == old(store).tags@.len() + 1
            && forall|x: Tag| #[trigger] final(store).tags@.contains(x) <==> old(store).tags@.contains(x) || x == t),
{
    ensure_tag_in(&mut store.tags, name, id, now)
}

/// Finds the tag named `name` (trimmed, ASCII case ignored), or adds it with
/// a fresh id, created now.
pub fn ensure_tag(store: &mut TaskStore, name: &str) -> (r: Result<Tag, Error>)
    requires
        old(store).wf(),
    ensures
        final(store).wf(),
        final(store).tasks@ == old(store).tasks@,
        final(store).events@ == old(store).events@,
        final(store).applied@ == old(store).applied@,
        trim(name@).len() == 0 ==> final(store).tags@ == old(store).tags@ && (r matches Err(
            Error::Message(m),
        ) && m@ == tag_name_required()),
        forall|k: int| trim(name@).len() > 0 && tag_at_key(old(store).tags@, nocase_key(trim(name@)), k)
            ==> final(store).tags@ == old(store).tags@ && r == Ok::<Tag, Error>(old(store).tags@[k]),
        r is Err ==> final(store).tags@ == old(store).tags@,
        trim(name@).len() > 0 && (forall|k: int| !tag_at_key(old(store).tags@, nocase_key(trim(name@)), k))
            ==> (r matches Ok(t) ==> t.name@ == trim(name@)
            && final(store).tags@.len() == old(store).tags@.len() + 1
            && forall|x: Tag| #[trigger] final(store).tags@.contains(x) <==> old(store).tags@.contains(x) || x == t),
{
    let t = crate::text::trim_str(name);
    if t.as_str().unicode_len() == 0 {
        return Err(Error::Message(from_chars(&to_chars("tag name is required"))));
    }
    match find_tag(&store.tags, name) {
        Some(k) => {
            proof {
                assert forall|j: int| tag_at_key(old(store).tags@, nocase_key(trim(name@)), j) implies j == k by {
                    if j != k {
                        crate::store::lemma_tag_keys_distinct(store.tags@, j, k as int);
                    }
                }
            }
            Ok(copy_tag(&store.tags[k]))
        },
        None => {
            let now = current_time()?;
            ensure_tag_at(store, name, new_id(), now)
        },
    }
}

/// The position of the tag named `name` (trimmed, ASCII case ignored).
pub fn find_tag(tags: &Vec<Tag>, name: &str) -> (r: Option<usize>)
    ensures
        r matches Some(k) ==> tag_at_key(tags@, nocase_key(trim(name@)), k as int),
        r is None ==> forall|k: int| !tag_at_key(tags@, nocase_key(trim(name@)), k),
{
    let want = crate::store::nocase_key_exec(crate::text::trim_str(name).as_str());
    let mut k: usize = 0;
    while k < tags.len()
        invariant
            k <= tags@.len(),
            want@ == nocase_key(trim(name@)),
            forall|j: int| 0 <= j < k ==> !tag_at_key(tags@, want@, j),
        decreases tags@.len() - k,
    {
        let key = crate::store::nocase_key_exec(tags[k].name.as_str());
        if crate::order::chars_eq(&key, &want) {
            return Some(k);
        }
        k += 1;
    }
    None
}

/// Number of live tasks linked to tag `id`.
pub open spec fn count_tagged(tasks: Seq<TaskRecord>, id: u128) -> nat
    decreases tasks.len(),
{
    if tasks.len() == 0 {
        0
    } else {
        count_tagged(tasks.drop_last(), id) + if tasks.last().deleted_at is None
            && tasks.last().tag_ids@.contains(id) {
            1nat
        } else {
            0nat
        }
    }
}

/// Whether `ids` holds `id`.
pub fn ids_contain(ids: &Vec<u128>, id: u128) -> (r: bool)
    ensures
        r == ids@.contains(id),
{
    let mut i: usize = 0;
    while i < ids.len()
        invariant
            i <= ids@.len(),
            forall|k: int| 0 <= k < i ==> ids@[k] != id,
        decreases ids@.len() - i,
    {
        if ids[i] == id {
            assert(ids@[i as int] == id);
            return true;
        }
        i += 1;
    }
    false
}

/// How many live (not deleted) tasks carry tag `tag_id`.
pub fn count_tasks_with_tag(store: &TaskStore, tag_id: u128) -> (r: u64)
    ensures
        r == count_tagged(store.tasks@, tag_id),
{
    let mut n: u64 = 0;
    let mut i: usize = 0;
    while i < store.tasks.len()
        invariant
            i <= store.tasks@.len(),
            n == count_tagged(store.tasks@.subrange(0, i as int), tag_id),
            n <= i,
        decreases store.tasks@.len() - i,
    {
        let ghost pre = store.tasks@.subrange(0, i as int);
        assert(store.tasks@.subrange(0, i + 1).drop_last() == pre);
        if store.tasks[i].deleted_at.is_none() && ids_contain(&store.tasks[i].tag_ids, tag_id) {
            n = n + 1;
        }
        i += 1;
    }
    assert(store.tasks@.subrange(0, store.tasks@.len() as int) == store.tasks@);
    n
}

/// The tags other than those with id `id`, in order.
pub open spec fn without_tag(t: Seq<Tag>, id: u128) -> Seq<Tag>
    decreases t.len(),
{
    if t.len() == 0 {
        t
    } else if t.last().id == id {
        without_tag(t.drop_last(), id)
    } else {
        without_tag(t.drop_last(), id).push(t.last())
    }
}

/// The ids other than `id`, in order.
pub open spec fn without_id(ids: Seq<u128>, id: u128) -> Seq<u128>
    decreases ids.len(),
{
    if ids.len() == 0 {
        ids
    } else if ids.last() == id {
        without_id(ids.drop_last(), id)
    } else {
        without_id(ids.drop_last(), id).push(ids.last())
    }
}

/// Two task rows agree on everything but their tag links.
pub open spec fn same_row(a: TaskRecord, b: TaskRecord) -> bool {
    &&& a.id == b.id
    &&& a.title == b.title
    &&& a.description == b.description
    &&& a.status == b.status
    &&& a.due_at == b.due_at
    &&& a.repeat_cron == b.repeat_cron
    &&& a.created_at == b.created_at
    &&& a.updated_at == b.updated_at
    &&& a.deleted_at == b.deleted_at
}

/// Every element of `t` sorts before `x`.
pub open spec fn all_before(t: Seq<Tag>, x: Tag) -> bool {
    forall|a: int| 0 <= a < t.len() ==> lex_lt(tag_key(#[trigger] t[a]), tag_key(x))
}

fn filter_tags(tags: &Vec<Tag>, id: u128) -> (r: Vec<Tag>)
    requires
        tags_sorted(tags@),
    ensures
        r@ == without_tag(tags@, id),
        tags_sorted(r@),
{
    let mut r: Vec<Tag> = Vec::new();
    let mut i: usize = 0;
    while i < tags.len()
        invariant
            i <= tags@.len(),
            tags_sorted(tags@),
            tags_sorted(r@),
            r@ == without_tag(tags@.subrange(0, i as int), id),
            forall|k: int| i <= k < tags@.len() ==> all_before(r@, #[trigger] tags@[k]),
        decreases tags@.len() - i,
    {
        assert(tags@.subrange(0, i + 1).drop_last() == tags@.subrange(0, i as int));
        let ghost x = tags@[i as int];
        if tags[i].id != id {
            let ghost old_r = r@;
            r.push(copy_tag(&tags[i]));
            proof {
                assert forall|k: int| i + 1 <= k < tags@.len() implies all_before(r@, #[trigger] tags@[k]) by {
                    assert forall|a: int| 0 <= a < r@.len() implies lex_lt(tag_key(#[trigger] r@[a]), tag_key(tags@[k])) by {
                        if a < old_r.len() {
                            assert(all_before(old_r, tags@[k]));
                        } else {
                            assert(r@[a] == x);
                        }
                    }
                }
                assert forall|a: int, b: int| 0 <= a < b < r@.len() implies lex_lt(tag_key(#[trigger] r@[a]), tag_key(#[trigger] r@[b])) by {
                    if b < old_r.len() {
                        assert(r@[a] == old_r[a] && r@[b] == old_r[b]);
                    } else {
                        assert(all_before(old_r, x));
                        assert(r@[a] == old_r[a]);
                    }
                }
            }
        }
        i += 1;
    }
    assert(tags@.subrange(0, tags@.len() as int) == tags@);
    r
}

fn filter_ids(ids: &Vec<u128>, id: u128) -> (r: Vec<u128>)
    ensures
        r@ == without_id(ids@, id),
{
    let mut r: Vec<u128> = Vec::new();
    let mut i: usize = 0;
    while i < ids.len()
        invariant
            i <= ids@.len(),
            r@ == without_id(ids@.subrange(0, i as int), id),
        decreases ids@.len() - i,
    {
        assert(ids@.subrange(0, i + 1).drop_last() == ids@.subrange(0, i as int));
        if ids[i] != id {
            r.push(ids[i]);
        }
        i += 1;
    }
    assert(ids@.subrange(0, ids@.len() as int) == ids@);
    r
}

/// A copy of an optional string.
pub fn copy_opt(o: &Option<String>) -> (r: Option<String>)
    ensures
        r == *o,
{
    match o {
        Some(s) => Some(s.clone()),
        None => None,
    }
}

/// Deletes tag `tag_id` and unlinks it from every task; an unknown id is an
/// error that names it.
pub fn delete_tag(store: &mut TaskStore, tag_id: u128) -> (r: Result<(), Error>)
    requires
        old(store).wf(),
    ensures
        final(store).wf(),
        r is Ok <==> tag_id_taken(old(store).tags@, tag_id),
        r matches Err(e) ==> (e matches Error::TagNotFound(m) && m@ == uuid_text(tag_id))
            && *final(store) == *old(store),
        r is Ok ==> final(store).tags@ == without_tag(old(store).tags@, tag_id)
            && final(store).events@ == old(store).events@
            && final(store).applied@ == old(store).applied@
            && final(store).tasks@.len() == old(store).tasks@.len()
            && forall|i: int| 0 <= i < old(store).tasks@.len() ==> same_row(
                #[trigger] final(store).tasks@[i], old(store).tasks@[i])
                && final(store).tasks@[i].tag_ids@ == without_id(old(store).tasks@[i].tag_ids@, tag_id),
{
    let mut found = false;
    let mut k: usize = 0;
    while k < store.tags.len()
        invariant
            k <= store.tags@.len(),
            found == (exists|j: int| 0 <= j < k && #[trigger] store.tags@[j].id == tag_id),
        decreases store.tags@.len() - k,
    {
        if store.tags[k].id == tag_id {
            found = true;
        }
        k += 1;
    }
    if !found {
        return Err(Error::TagNotFound(id_string(tag_id)));
    }
    let new_tags = filter_tags(&store.tags, tag_id);
    let mut new_tasks: Vec<TaskRecord> = Vec::new();
    let mut i: usize = 0;
    while i < store.tasks.len()
        invariant
            i <= store.tasks@.len(),
            new_tasks@.len() == i,
            forall|j: int| 0 <= j < i ==> same_row(#[trigger] new_tasks@[j], store.tasks@[j])
                && new_tasks@[j].tag_ids@ == without_id(store.tasks@[j].tag_ids@, tag_id),
        decreases store.tasks@.len() - i,
    {
        let t = &store.tasks[i];
        let row = TaskRecord {
            id: t.id,
            title: t.title.clone(),
            description: copy_opt(&t.description),
            status: t.status,
            due_at: t.due_at,
            repeat_cron: copy_opt(&t.repeat_cron),
            created_at: t.created_at,
            updated_at: t.updated_at,
            deleted_at: t.deleted_at,
            tag_ids: filter_ids(&t.tag_ids, tag_id),
        };
        new_tasks.push(row);
        i += 1;
    }
    store.tags = new_tags;
    store.tasks = new_tasks;
    Ok(())
}

} // verus!
