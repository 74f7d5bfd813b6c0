//! The reconciliation guarantees, stated over the engine's mathematical
//! model and proved once and for all: no lost tombstones, no zombie
//! resurrection, convergence of replays, and ownership isolation.

use vstd::prelude::*;

use crate::pull::{
    ListResponseModel, TaskResponseModel, lemma_tombstoned_list_ids_step,
    lemma_tombstoned_task_ids_step, lemma_visible_lists_step, lemma_visible_tasks_step,
    list_response_model, list_tombstone_reported, live_list_visible, live_task_visible, spec_pull,
    task_response_model, task_tombstone_reported, tombstoned_list_ids, tombstoned_task_ids,
    visible_lists, visible_tasks,
};
use crate::reconcile::{
    ListUpsertModel, TaskUpsertModel, spec_delete_list, spec_delete_task, spec_upsert_list,
    spec_upsert_task, task_deletable, task_update_allowed, tomb_list, tomb_task, upd_list,
    upd_task,
};
use crate::push::{
    PushBatchModel, spec_delete_lists, spec_delete_tasks, spec_push, spec_upsert_lists,
    spec_upsert_tasks,
};
use crate::reconcile::{lemma_wf_delete_list, lemma_wf_delete_task, lemma_wf_upsert_list,
    lemma_wf_upsert_task, new_list_row, new_task_row};
use crate::store::{
    ListModel, StoreModel, TaskModel, has_list, has_task, list_owned, list_owned_live,
};

verus! {

/// An element of a pushed sequence is the new last element or one of the old
/// ones.
pub proof fn lemma_push_contains<A>(s: Seq<A>, e: A, x: A)
    ensures
        s.push(e).contains(x) <==> (s.contains(x) || x == e),
{
    if s.push(e).contains(x) {
        let k = choose|k: int| 0 <= k < s.push(e).len() && s.push(e)[k] == x;
        if k < s.len() {
            assert(s[k] == x);
        }
    }
    if s.contains(x) {
        let k = choose|k: int| 0 <= k < s.len() && s[k] == x;
        assert(s.push(e)[k] == x);
    }
    if x == e {
        assert(s.push(e)[s.len() as int] == x);
    }
}

/// Deleting a list that is missing, foreign, or already deleted changes
/// nothing observable: the store, the audit log included, stays as it was.
pub proof fn lemma_delete_list_noop(s: StoreModel, owner: Seq<char>, id: Seq<char>, now: int)
    requires
        !list_owned_live(s.lists, id, owner),
    ensures
        spec_delete_list(s, owner, id, now) == s,
{
}

/// Deleting a task that is missing, foreign, or already deleted changes
/// nothing observable.
pub proof fn lemma_delete_task_noop(s: StoreModel, owner: Seq<char>, id: Seq<char>, now: int)
    requires
        !task_deletable(s, owner, id),
    ensures
        spec_delete_task(s, owner, id, now) == s,
{
}

/// Replaying a list deletion is a no-op: the second delete, at any later
/// instant, finds the tombstone already written and changes nothing.
pub proof fn lemma_delete_list_idempotent(
    s: StoreModel,
    owner: Seq<char>,
    id: Seq<char>,
    n1: int,
    n2: int,
)
    ensures
        spec_delete_list(spec_delete_list(s, owner, id, n1), owner, id, n2) == spec_delete_list(
            s,
            owner,
            id,
            n1,
        ),
{
    let s1 = spec_delete_list(s, owner, id, n1);
    if list_owned_live(s.lists, id, owner) {
        assert forall|i: int|
            0 <= i < s1.lists.len() && (#[trigger] s1.lists[i]).id == id implies !(
        s1.lists[i].deleted_at is None) by {
            assert(s1.lists[i] == tomb_list(s.lists[i], id, n1));
        }
        assert(!list_owned_live(s1.lists, id, owner));
        lemma_delete_list_noop(s1, owner, id, n2);
    } else {
        lemma_delete_list_noop(s, owner, id, n1);
        lemma_delete_list_noop(s1, owner, id, n2);
    }
}

/// Replaying a task deletion is a no-op.
pub proof fn lemma_delete_task_idempotent(
    s: StoreModel,
    owner: Seq<char>,
    id: Seq<char>,
    n1: int,
    n2: int,
)
    ensures
        spec_delete_task(spec_delete_task(s, owner, id, n1), owner, id, n2) == spec_delete_task(
            s,
            owner,
            id,
            n1,
        ),
{
    let s1 = spec_delete_task(s, owner, id, n1);
    if task_deletable(s, owner, id) {
        assert forall|i: int|
            0 <= i < s1.tasks.len() && (#[trigger] s1.tasks[i]).id == id implies !(
        s1.tasks[i].deleted_at is None) by {
            assert(s1.tasks[i] == tomb_task(s.tasks[i], id, n1));
        }
        assert(!task_deletable(s1, owner, id));
        lemma_delete_task_noop(s1, owner, id, n2);
    } else {
        lemma_delete_task_noop(s, owner, id, n1);
        lemma_delete_task_noop(s1, owner, id, n2);
    }
}

/// Upserting an identifier that was previously soft-deleted clears its
/// tombstone: the row is live again, its `updated_at` is the server time of
/// the touch, and the caller's next full snapshot carries it.
pub proof fn lemma_undelete_on_touch_list(
    s: StoreModel,
    owner: Seq<char>,
    it: ListUpsertModel,
    now: int,
    i: int,
)
    requires
        s.wf(),
        0 <= i < s.lists.len(),
        s.lists[i].id == it.id,
        s.lists[i].user_id == owner,
    ensures
        spec_upsert_list(s, owner, it, now) is Some,
        ({
            let s2 = spec_upsert_list(s, owner, it, now)->Some_0;
            &&& s2.lists[i].deleted_at is None
            &&& s2.lists[i].updated_at == now
            &&& spec_pull(s2, owner, None).lists.contains(list_response_model(s2.lists[i]))
        }),
{
    assert(has_list(s.lists, it.id));
    assert(list_owned(s.lists, it.id, owner));
    let s2 = spec_upsert_list(s, owner, it, now)->Some_0;
    assert(s2.lists[i] == upd_list(s.lists[i], it, now));
    assert(live_list_visible(s2.lists[i], owner, None));
    s2.lists.lemma_filter_contains(|l: ListModel| live_list_visible(l, owner, None), i);
    let f = s2.lists.filter(|l: ListModel| live_list_visible(l, owner, None));
    assert(f.contains(s2.lists[i]));
    let k = choose|k: int| 0 <= k < f.len() && f[k] == s2.lists[i];
    assert(f.map_values(|l: ListModel| list_response_model(l))[k] == list_response_model(
        s2.lists[i],
    ));
    assert(spec_pull(s2, owner, None).lists.contains(list_response_model(s2.lists[i])));
}

/// Upserting a previously soft-deleted task revives it; if its parent list is
/// live, the caller's next full snapshot carries it.
pub proof fn lemma_undelete_on_touch_task(
    s: StoreModel,
    owner: Seq<char>,
    it: TaskUpsertModel,
    now: int,
    i: int,
)
    requires
        s.wf(),
        0 <= i < s.tasks.len(),
        s.tasks[i].id == it.id,
        list_owned(s.lists, s.tasks[i].list_id, owner),
    ensures
        spec_upsert_task(s, owner, it, now) is Some,
        ({
            let s2 = spec_upsert_task(s, owner, it, now)->Some_0;
            &&& s2.tasks[i].deleted_at is None
            &&& s2.tasks[i].updated_at == now
            &&& list_owned_live(s2.lists, s2.tasks[i].list_id, owner) ==> spec_pull(
                s2,
                owner,
                None,
            ).tasks.contains(task_response_model(s2.tasks[i]))
        }),
{
    assert(has_task(s.tasks, it.id));
    assert(task_update_allowed(s, owner, it.id));
    let s2 = spec_upsert_task(s, owner, it, now)->Some_0;
    assert(s2.tasks[i] == upd_task(s.tasks[i], it, now));
    if list_owned_live(s2.lists, s2.tasks[i].list_id, owner) {
        assert(live_task_visible(s2.lists, s2.tasks[i], owner, None));
        s2.tasks.lemma_filter_contains(
            |t: TaskModel| live_task_visible(s2.lists, t, owner, None),
            i,
        );
        let f = s2.tasks.filter(|t: TaskModel| live_task_visible(s2.lists, t, owner, None));
        assert(f.contains(s2.tasks[i]));
        let k = choose|k: int| 0 <= k < f.len() && f[k] == s2.tasks[i];
        assert(f.map_values(|t: TaskModel| task_response_model(t))[k] == task_response_model(
            s2.tasks[i],
        ));
    }
}

/// Every element a filter keeps comes from the filtered sequence.
pub proof fn lemma_filter_elements<A>(s: Seq<A>, pred: spec_fn(A) -> bool)
    ensures
        forall|k: int|
            0 <= k < s.filter(pred).len() ==> s.contains(#[trigger] s.filter(pred)[k]),
    decreases s.len(),
{
    reveal(Seq::filter);
    if s.len() > 0 {
        lemma_filter_elements(s.drop_last(), pred);
        assert forall|k: int|
            0 <= k < s.filter(pred).len() implies s.contains(#[trigger] s.filter(pred)[k]) by {
            let f = s.filter(pred);
            let fd = s.drop_last().filter(pred);
            if pred(s.last()) {
                assert(f == fd.push(s.last()));
                if k < fd.len() {
                    assert(fd[k] == f[k]);
                    let m = choose|m: int| 0 <= m < s.drop_last().len() && s.drop_last()[m] == fd[k];
                    assert(s[m] == fd[k]);
                } else {
                    assert(f[k] == s.last());
                    assert(s[s.len() - 1] == s.last());
                }
            } else {
                assert(f == fd);
                let m = choose|m: int| 0 <= m < s.drop_last().len() && s.drop_last()[m] == f[k];
                assert(s[m] == f[k]);
            }
        }
    }
}

/// Deleting a list makes every one of its tasks invisible to `Pull` and
/// `FullSync`, at any watermark, even though only the list's tombstone was
/// explicitly written: no task the delta carries refers to the deleted list.
pub proof fn lemma_cascade_hides_tasks(
    s: StoreModel,
    owner: Seq<char>,
    id: Seq<char>,
    now: int,
    wm: Option<int>,
)
    requires
        s.wf(),
        list_owned_live(s.lists, id, owner),
    ensures
        forall|x: TaskResponseModel|
            #[trigger] spec_pull(
                spec_delete_list(s, owner, id, now),
                owner,
                wm,
            ).tasks.contains(x) ==> x.list_id != id,
{
    let s2 = spec_delete_list(s, owner, id, now);
    let pred = |t: TaskModel| live_task_visible(s2.lists, t, owner, wm);
    let f = s2.tasks.filter(pred);
    lemma_filter_elements(s2.tasks, pred);
    assert forall|x: TaskResponseModel|
        #[trigger] spec_pull(s2, owner, wm).tasks.contains(x) implies x.list_id != id by {
        let fm = f.map_values(|t: TaskModel| task_response_model(t));
        let k = choose|k: int| 0 <= k < fm.len() && #[trigger] fm[k] == x;
        let t = f[k];
        assert(x == task_response_model(t));
        s2.tasks.lemma_filter_pred(pred, k);
        assert(live_task_visible(s2.lists, t, owner, wm));
        if t.list_id == id {
            let w = choose|w: int|
                0 <= w < s2.lists.len() && (#[trigger] s2.lists[w]).id == id && s2.lists[w].user_id
                    == owner && s2.lists[w].deleted_at is None;
            assert(s2.lists[w] == tomb_list(s.lists[w], id, now));
        }
    }
}

proof fn lemma_visible_lists_mono_prefix(
    lists: Seq<ListModel>,
    owner: Seq<char>,
    t1: int,
    t2: int,
    i: int,
)
    requires
        t1 <= t2,
        0 <= i <= lists.len(),
    ensures
        forall|x: ListResponseModel|
            #[trigger] visible_lists(lists.take(i), owner, Some(t2)).contains(x)
                ==> visible_lists(lists.take(i), owner, Some(t1)).contains(x),
    decreases i,
{
    if i == 0 {
        reveal(Seq::filter);
        assert(lists.take(0) =~= Seq::<ListModel>::empty());
        assert(visible_lists(lists.take(0), owner, Some(t2)).len() == 0);
    } else {
        lemma_visible_lists_mono_prefix(lists, owner, t1, t2, i - 1);
        lemma_visible_lists_step(lists, owner, Some(t1), i - 1);
        lemma_visible_lists_step(lists, owner, Some(t2), i - 1);
        let v1p = visible_lists(lists.take(i - 1), owner, Some(t1));
        let v2p = visible_lists(lists.take(i - 1), owner, Some(t2));
        let e = list_response_model(lists[i - 1]);
        assert forall|x: ListResponseModel|
            #[trigger] visible_lists(lists.take(i), owner, Some(t2)).contains(x)
                implies visible_lists(lists.take(i), owner, Some(t1)).contains(x) by {
            if live_list_visible(lists[i - 1], owner, Some(t2)) {
                lemma_push_contains(v2p, e, x);
            }
            lemma_push_contains(v1p, e, x);
        }
    }
}

proof fn lemma_visible_tasks_mono_prefix(
    lists: Seq<ListModel>,
    tasks: Seq<TaskModel>,
    owner: Seq<char>,
    t1: int,
    t2: int,
    i: int,
)
    requires
        t1 <= t2,
        0 <= i <= tasks.len(),
    ensures
        forall|x: TaskResponseModel|
            #[trigger] visible_tasks(lists, tasks.take(i), owner, Some(t2)).contains(x)
                ==> visible_tasks(lists, tasks.take(i), owner, Some(t1)).contains(x),
    decreases i,
{
    if i == 0 {
        reveal(Seq::filter);
        assert(tasks.take(0) =~= Seq::<TaskModel>::empty());
        assert(visible_tasks(lists, tasks.take(0), owner, Some(t2)).len() == 0);
    } else {
        lemma_visible_tasks_mono_prefix(lists, tasks, owner, t1, t2, i - 1);
        lemma_visible_tasks_step(lists, tasks, owner, Some(t1), i - 1);
        lemma_visible_tasks_step(lists, tasks, owner, Some(t2), i - 1);
        let v1p = visible_tasks(lists, tasks.take(i - 1), owner, Some(t1));
        let v2p = visible_tasks(lists, tasks.take(i - 1), owner, Some(t2));
        let e = task_response_model(tasks[i - 1]);
        assert forall|x: TaskResponseModel|
            #[trigger] visible_tasks(lists, tasks.take(i), owner, Some(t2)).contains(x)
                implies visible_tasks(lists, tasks.take(i), owner, Some(t1)).contains(x) by {
            if live_task_visible(lists, tasks[i - 1], owner, Some(t2)) {
                lemma_push_contains(v2p, e, x);
            }
            lemma_push_contains(v1p, e, x);
        }
    }
}

proof fn lemma_tombstoned_list_ids_mono_prefix(
    lists: Seq<ListModel>,
    owner: Seq<char>,
    t1: int,
    t2: int,
    i: int,
)
    requires
        t1 <= t2,
        0 <= i <= lists.len(),
    ensures
        forall|x: Seq<char>|
            #[trigger] tombstoned_list_ids(lists.take(i), owner, t2).contains(x)
                ==> tombstoned_list_ids(lists.take(i), owner, t1).contains(x),
    decreases i,
{
    if i == 0 {
        reveal(Seq::filter);
        assert(lists.take(0) =~= Seq::<ListModel>::empty());
        assert(tombstoned_list_ids(lists.take(0), owner, t2).len() == 0);
    } else {
        lemma_tombstoned_list_ids_mono_prefix(lists, owner, t1, t2, i - 1);
        lemma_tombstoned_list_ids_step(lists, owner, t1, i - 1);
        lemma_tombstoned_list_ids_step(lists, owner, t2, i - 1);
        let v1p = tombstoned_list_ids(lists.take(i - 1), owner, t1);
        let v2p = tombstoned_list_ids(lists.take(i - 1), owner, t2);
        let e = lists[i - 1].id;
        assert forall|x: Seq<char>|
            #[trigger] tombstoned_list_ids(lists.take(i), owner, t2).contains(x)
                implies tombstoned_list_ids(lists.take(i), owner, t1).contains(x) by {
            if list_tombstone_reported(lists[i - 1], owner, t2) {
                lemma_push_contains(v2p, e, x);
            }
            lemma_push_contains(v1p, e, x);
        }
    }
}

proof fn lemma_tombstoned_task_ids_mono_prefix(
    lists: Seq<ListModel>,
    tasks: Seq<TaskModel>,
    owner: Seq<char>,
    t1: int,
    t2: int,
    i: int,
)
    requires
        t1 <= t2,
        0 <= i <= tasks.len(),
    ensures
        forall|x: Seq<char>|
            #[trigger] tombstoned_task_ids(lists, tasks.take(i), owner, t2).contains(x)
                ==> tombstoned_task_ids(lists, tasks.take(i), owner, t1).contains(x),
    decreases i,
{
    if i == 0 {
        reveal(Seq::filter);
        assert(tasks.take(0) =~= Seq::<TaskModel>::empty());
        assert(tombstoned_task_ids(lists, tasks.take(0), owner, t2).len() == 0);
    } else {
        lemma_tombstoned_task_ids_mono_prefix(lists, tasks, owner, t1, t2, i - 1);
        lemma_tombstoned_task_ids_step(lists, tasks, owner, t1, i - 1);
        lemma_tombstoned_task_ids_step(lists, tasks, owner, t2, i - 1);
        let v1p = tombstoned_task_ids(lists, tasks.take(i - 1), owner, t1);
        let v2p = tombstoned_task_ids(lists, tasks.take(i - 1), owner, t2);
        let e = tasks[i - 1].id;
        assert forall|x: Seq<char>|
            #[trigger] tombstoned_task_ids(lists, tasks.take(i), owner, t2).contains(x)
                implies tombstoned_task_ids(lists, tasks.take(i), owner, t1).contains(x) by {
            if task_tombstone_reported(lists, tasks[i - 1], owner, t2) {
                lemma_push_contains(v2p, e, x);
            }
            lemma_push_contains(v1p, e, x);
        }
    }
}

/// Watermark monotonicity: for two `Pull`s against an unchanging store with
/// watermarks `t1 <= t2`, everything the later watermark delivers the earlier
/// one delivers too, component by component.
pub proof fn lemma_watermark_monotonicity(s: StoreModel, owner: Seq<char>, t1: int, t2: int)
    requires
        t1 <= t2,
    ensures
        forall|x: ListResponseModel|
            #[trigger] spec_pull(s, owner, Some(t2)).lists.contains(x) ==> spec_pull(
                s,
                owner,
                Some(t1),
            ).lists.contains(x),
        forall|x: TaskResponseModel|
            #[trigger] spec_pull(s, owner, Some(t2)).tasks.contains(x) ==> spec_pull(
                s,
                owner,
                Some(t1),
            ).tasks.contains(x),
        forall|x: Seq<char>|
            #[trigger] spec_pull(s, owner, Some(t2)).deleted_lists.contains(x) ==> spec_pull(
                s,
                owner,
                Some(t1),
            ).deleted_lists.contains(x),
        forall|x: Seq<char>|
            #[trigger] spec_pull(s, owner, Some(t2)).deleted_tasks.contains(x) ==> spec_pull(
                s,
                owner,
                Some(t1),
            ).deleted_tasks.contains(x),
{
    lemma_visible_lists_mono_prefix(s.lists, owner, t1, t2, s.lists.len() as int);
    lemma_visible_tasks_mono_prefix(s.lists, s.tasks, owner, t1, t2, s.tasks.len() as int);
    lemma_tombstoned_list_ids_mono_prefix(s.lists, owner, t1, t2, s.lists.len() as int);
    lemma_tombstoned_task_ids_mono_prefix(s.lists, s.tasks, owner, t1, t2, s.tasks.len() as int);
    assert(s.lists.take(s.lists.len() as int) =~= s.lists);
    assert(s.tasks.take(s.tasks.len() as int) =~= s.tasks);
}

/// Replaying one list upsert is idempotent: a second delivery of the same
/// change at the same server time is accepted and leaves every list and task
/// row exactly as the first left it.
pub proof fn lemma_upsert_list_idempotent(
    s: StoreModel,
    owner: Seq<char>,
    it: ListUpsertModel,
    now: int,
)
    requires
        s.wf(),
        spec_upsert_list(s, owner, it, now) is Some,
    ensures
        ({
            let s1 = spec_upsert_list(s, owner, it, now)->Some_0;
            &&& spec_upsert_list(s1, owner, it, now) is Some
            &&& (spec_upsert_list(s1, owner, it, now)->Some_0).lists == s1.lists
            &&& (spec_upsert_list(s1, owner, it, now)->Some_0).tasks == s1.tasks
        }),
{
    let s1 = spec_upsert_list(s, owner, it, now)->Some_0;
    if has_list(s.lists, it.id) {
        let w = choose|i: int|
            0 <= i < s.lists.len() && (#[trigger] s.lists[i]).id == it.id && s.lists[i].user_id
                == owner;
        assert(s1.lists[w] == upd_list(s.lists[w], it, now));
        assert(s1.lists[w].id == it.id && s1.lists[w].user_id == owner);
        assert(has_list(s1.lists, it.id));
        assert(list_owned(s1.lists, it.id, owner));
        let s2 = spec_upsert_list(s1, owner, it, now)->Some_0;
        assert forall|i: int| 0 <= i < s1.lists.len() implies s2.lists[i] == s1.lists[i] by {
            assert(s1.lists[i] == upd_list(s.lists[i], it, now));
            assert(s2.lists[i] == upd_list(s1.lists[i], it, now));
        }
        assert(s2.lists =~= s1.lists);
    } else {
        let n = s.lists.len() as int;
        assert(s1.lists[n] == crate::reconcile::new_list_row(owner, it, now));
        assert(has_list(s1.lists, it.id));
        assert(list_owned(s1.lists, it.id, owner));
        let s2 = spec_upsert_list(s1, owner, it, now)->Some_0;
        assert forall|i: int| 0 <= i < s1.lists.len() implies s2.lists[i] == s1.lists[i] by {
            assert(s2.lists[i] == upd_list(s1.lists[i], it, now));
            if i < n {
                assert(s1.lists[i] == s.lists[i]);
                assert(s.lists[i].id != it.id);
            }
        }
        assert(s2.lists =~= s1.lists);
    }
}

/// Replaying one task upsert is idempotent.
pub proof fn lemma_upsert_task_idempotent(
    s: StoreModel,
    owner: Seq<char>,
    it: TaskUpsertModel,
    now: int,
)
    requires
        s.wf(),
        spec_upsert_task(s, owner, it, now) is Some,
    ensures
        ({
            let s1 = spec_upsert_task(s, owner, it, now)->Some_0;
            &&& spec_upsert_task(s1, owner, it, now) is Some
            &&& (spec_upsert_task(s1, owner, it, now)->Some_0).lists == s1.lists
            &&& (spec_upsert_task(s1, owner, it, now)->Some_0).tasks == s1.tasks
        }),
{
    let s1 = spec_upsert_task(s, owner, it, now)->Some_0;
    if has_task(s.tasks, it.id) {
        let w = choose|i: int|
            0 <= i < s.tasks.len() && (#[trigger] s.tasks[i]).id == it.id && list_owned(
                s.lists,
                s.tasks[i].list_id,
                owner,
            );
        assert(s1.tasks[w] == upd_task(s.tasks[w], it, now));
        assert(s1.tasks[w].id == it.id && s1.tasks[w].list_id == s.tasks[w].list_id);
        assert(s1.lists == s.lists);
        assert(has_task(s1.tasks, it.id));
        assert(task_update_allowed(s1, owner, it.id));
        let s2 = spec_upsert_task(s1, owner, it, now)->Some_0;
        assert forall|i: int| 0 <= i < s1.tasks.len() implies s2.tasks[i] == s1.tasks[i] by {
            assert(s1.tasks[i] == upd_task(s.tasks[i], it, now));
            assert(s2.tasks[i] == upd_task(s1.tasks[i], it, now));
        }
        assert(s2.tasks =~= s1.tasks);
    } else {
        let n = s.tasks.len() as int;
        assert(s1.tasks[n] == crate::reconcile::new_task_row(it, now));
        assert(s1.lists == s.lists);
        assert(has_task(s1.tasks, it.id));
        assert(list_owned(s1.lists, it.list_id, owner));
        assert(task_update_allowed(s1, owner, it.id));
        let s2 = spec_upsert_task(s1, owner, it, now)->Some_0;
        assert forall|i: int| 0 <= i < s1.tasks.len() implies s2.tasks[i] == s1.tasks[i] by {
            assert(s2.tasks[i] == upd_task(s1.tasks[i], it, now));
            if i < n {
                assert(s1.tasks[i] == s.tasks[i]);
                assert(s.tasks[i].id != it.id);
            }
        }
        assert(s2.tasks =~= s1.tasks);
    }
}

/// A task upsert that would create a row under a missing, foreign or deleted
/// list is the not-found-class rejection (the exec contract of `push` adds
/// that a rejected batch writes nothing).
pub proof fn lemma_foreign_list_rejected(
    s: StoreModel,
    owner: Seq<char>,
    it: TaskUpsertModel,
    now: int,
)
    requires
        !has_task(s.tasks, it.id),
        !list_owned_live(s.lists, it.list_id, owner),
    ensures
        spec_upsert_task(s, owner, it, now) is None,
{
}

/// The change descriptor that decides an identifier's final value in a
/// batch's list upserts: the last one carrying that identifier.
pub open spec fn last_list_upsert(items: Seq<ListUpsertModel>, id: Seq<char>) -> Option<
    ListUpsertModel,
>
    decreases items.len(),
{
    if items.len() == 0 {
        None
    } else if items.last().id == id {
        Some(items.last())
    } else {
        last_list_upsert(items.drop_last(), id)
    }
}

/// The change descriptor that decides an identifier's final value in a
/// batch's task upserts.
pub open spec fn last_task_upsert(items: Seq<TaskUpsertModel>, id: Seq<char>) -> Option<
    TaskUpsertModel,
>
    decreases items.len(),
{
    if items.len() == 0 {
        None
    } else if items.last().id == id {
        Some(items.last())
    } else {
        last_task_upsert(items.drop_last(), id)
    }
}

/// A descriptor found for an identifier carries that identifier.
proof fn lemma_last_list_upsert_id(items: Seq<ListUpsertModel>, id: Seq<char>)
    ensures
        last_list_upsert(items, id) matches Some(it) ==> it.id == id,
    decreases items.len(),
{
    if items.len() > 0 && items.last().id != id {
        lemma_last_list_upsert_id(items.drop_last(), id);
    }
}

/// A descriptor found for an identifier carries that identifier.
proof fn lemma_last_task_upsert_id(items: Seq<TaskUpsertModel>, id: Seq<char>)
    ensures
        last_task_upsert(items, id) matches Some(it) ==> it.id == id,
    decreases items.len(),
{
    if items.len() > 0 && items.last().id != id {
        lemma_last_task_upsert_id(items.drop_last(), id);
    }
}

/// How one list row reads after a whole phase of list deletions.
pub open spec fn del_list_row(
    l: ListModel,
    owner: Seq<char>,
    ids: Seq<Seq<char>>,
    now: int,
) -> ListModel {
    if ids.contains(l.id) && l.user_id == owner && l.deleted_at is None {
        ListModel { deleted_at: Some(now), ..l }
    } else {
        l
    }
}

/// How one task row reads after a whole phase of list deletions: the cascade
/// tombstones it where it is live and its parent list, owned and live in the
/// starting state, is among the deleted identifiers.
pub open spec fn del_cascade_row(
    s: StoreModel,
    t: TaskModel,
    owner: Seq<char>,
    ids: Seq<Seq<char>>,
    now: int,
) -> TaskModel {
    if t.deleted_at is None && ids.contains(t.list_id) && list_owned_live(
        s.lists,
        t.list_id,
        owner,
    ) {
        TaskModel { deleted_at: Some(now), ..t }
    } else {
        t
    }
}

/// How one task row reads after a whole phase of task deletions.
pub open spec fn del_task_row(
    s: StoreModel,
    t: TaskModel,
    owner: Seq<char>,
    ids: Seq<Seq<char>>,
    now: int,
) -> TaskModel {
    if t.deleted_at is None && ids.contains(t.id) && list_owned(s.lists, t.list_id, owner) {
        TaskModel { deleted_at: Some(now), ..t }
    } else {
        t
    }
}

/// The whole list-deletion phase, row by row: each owned, live list among the
/// deleted identifiers is tombstoned once, and the cascade tombstones each of
/// its live tasks once; everything else is untouched.
proof fn lemma_delete_lists_effect(s: StoreModel, owner: Seq<char>, ids: Seq<Seq<char>>, now: int)
    requires
        s.wf(),
    ensures
        ({
            let r = spec_delete_lists(s, owner, ids, now);
            &&& r.wf()
            &&& r.lists.len() == s.lists.len()
            &&& forall|i: int|
                0 <= i < s.lists.len() ==> #[trigger] r.lists[i] == del_list_row(
                    s.lists[i],
                    owner,
                    ids,
                    now,
                )
            &&& r.tasks.len() == s.tasks.len()
            &&& forall|k: int|
                0 <= k < s.tasks.len() ==> #[trigger] r.tasks[k] == del_cascade_row(
                    s,
                    s.tasks[k],
                    owner,
                    ids,
                    now,
                )
        }),
    decreases ids.len(),
{
    let r = spec_delete_lists(s, owner, ids, now);
    if ids.len() == 0 {
        assert forall|i: int| 0 <= i < s.lists.len() implies #[trigger] r.lists[i] == del_list_row(
            s.lists[i],
            owner,
            ids,
            now,
        ) by {
            assert(!ids.contains(s.lists[i].id));
        }
        assert forall|k: int| 0 <= k < s.tasks.len() implies #[trigger] r.tasks[k]
            == del_cascade_row(s, s.tasks[k], owner, ids, now) by {
            assert(!ids.contains(s.tasks[k].list_id));
        }
    } else {
        let pre = ids.drop_last();
        let x = ids.last();
        lemma_delete_lists_effect(s, owner, pre, now);
        let rp = spec_delete_lists(s, owner, pre, now);
        lemma_wf_delete_list(rp, owner, x, now);
        assert(ids =~= pre.push(x));

        // Whether the final deletion takes effect, read off the start state.
        let g = list_owned_live(rp.lists, x, owner);
        assert(g == (list_owned_live(s.lists, x, owner) && !pre.contains(x))) by {
            if g {
                let w = choose|i: int|
                    0 <= i < rp.lists.len() && (#[trigger] rp.lists[i]).id == x
                        && rp.lists[i].user_id == owner && rp.lists[i].deleted_at is None;
                assert(rp.lists[w] == del_list_row(s.lists[w], owner, pre, now));
                assert(s.lists[w].id == x && s.lists[w].user_id == owner
                    && s.lists[w].deleted_at is None);
                assert(!pre.contains(x));
            }
            if list_owned_live(s.lists, x, owner) && !pre.contains(x) {
                let w = choose|i: int|
                    0 <= i < s.lists.len() && (#[trigger] s.lists[i]).id == x && s.lists[i].user_id
                        == owner && s.lists[i].deleted_at is None;
                assert(rp.lists[w] == del_list_row(s.lists[w], owner, pre, now));
                assert(rp.lists[w] == s.lists[w]);
            }
        }

        assert forall|i: int| 0 <= i < s.lists.len() implies #[trigger] r.lists[i] == del_list_row(
            s.lists[i],
            owner,
            ids,
            now,
        ) by {
            lemma_push_contains(pre, x, s.lists[i].id);
            if g {
                assert(r.lists[i] == crate::reconcile::tomb_list(rp.lists[i], x, now));
            } else {
                assert(r.lists[i] == rp.lists[i]);
            }
        }
        assert forall|k: int| 0 <= k < s.tasks.len() implies #[trigger] r.tasks[k]
            == del_cascade_row(s, s.tasks[k], owner, ids, now) by {
            lemma_push_contains(pre, x, s.tasks[k].list_id);
            if g {
                assert(r.tasks[k] == crate::reconcile::cascade_task(rp.tasks[k], x, now));
            } else {
                assert(r.tasks[k] == rp.tasks[k]);
            }
        }
    }
}

/// The whole task-deletion phase, row by row.
proof fn lemma_delete_tasks_effect(s: StoreModel, owner: Seq<char>, ids: Seq<Seq<char>>, now: int)
    requires
        s.wf(),
    ensures
        ({
            let r = spec_delete_tasks(s, owner, ids, now);
            &&& r.wf()
            &&& r.lists == s.lists
            &&& r.tasks.len() == s.tasks.len()
            &&& forall|k: int|
                0 <= k < s.tasks.len() ==> #[trigger] r.tasks[k] == del_task_row(
                    s,
                    s.tasks[k],
                    owner,
                    ids,
                    now,
                )
        }),
    decreases ids.len(),
{
    let r = spec_delete_tasks(s, owner, ids, now);
    if ids.len() == 0 {
        assert forall|k: int| 0 <= k < s.tasks.len() implies #[trigger] r.tasks[k] == del_task_row(
            s,
            s.tasks[k],
            owner,
            ids,
            now,
        ) by {
            assert(!ids.contains(s.tasks[k].id));
        }
    } else {
        let pre = ids.drop_last();
        let x = ids.last();
        lemma_delete_tasks_effect(s, owner, pre, now);
        let rp = spec_delete_tasks(s, owner, pre, now);
        lemma_wf_delete_task(rp, owner, x, now);
        assert(ids =~= pre.push(x));

        let g = crate::reconcile::task_deletable(rp, owner, x);
        assert(g == (crate::reconcile::task_deletable(s, owner, x) && !pre.contains(x))) by {
            if g {
                let w = choose|k: int|
                    0 <= k < rp.tasks.len() && (#[trigger] rp.tasks[k]).id == x
                        && rp.tasks[k].deleted_at is None && list_owned(
                        rp.lists,
                        rp.tasks[k].list_id,
                        owner,
                    );
                assert(rp.tasks[w] == del_task_row(s, s.tasks[w], owner, pre, now));
                assert(s.tasks[w].id == x && s.tasks[w].deleted_at is None);
                assert(list_owned(s.lists, s.tasks[w].list_id, owner));
                assert(crate::reconcile::task_deletable(s, owner, x));
                assert(!pre.contains(x));
            }
            if crate::reconcile::task_deletable(s, owner, x) && !pre.contains(x) {
                let w = choose|k: int|
                    0 <= k < s.tasks.len() && (#[trigger] s.tasks[k]).id == x
                        && s.tasks[k].deleted_at is None && list_owned(
                        s.lists,
                        s.tasks[k].list_id,
                        owner,
                    );
                assert(rp.tasks[w] == del_task_row(s, s.tasks[w], owner, pre, now));
                assert(rp.tasks[w] == s.tasks[w]);
                assert(rp.tasks[w].id == x && rp.tasks[w].deleted_at is None && list_owned(
                    rp.lists,
                    rp.tasks[w].list_id,
                    owner,
                ));
            }
        }

        assert forall|k: int| 0 <= k < s.tasks.len() implies #[trigger] r.tasks[k] == del_task_row(
            s,
            s.tasks[k],
            owner,
            ids,
            now,
        ) by {
            lemma_push_contains(pre, x, s.tasks[k].id);
            if g {
                assert(r.tasks[k] == crate::reconcile::tomb_task(rp.tasks[k], x, now));
            } else {
                assert(r.tasks[k] == rp.tasks[k]);
            }
        }
    }
}

/// How one pre-existing list row reads after a whole phase of list upserts.
pub open spec fn ul_row(l: ListModel, items: Seq<ListUpsertModel>, now: int) -> ListModel {
    match last_list_upsert(items, l.id) {
        Some(it) => upd_list(l, it, now),
        None => l,
    }
}

/// What holds of a list row the upsert phase appended.
pub open spec fn appended_list_ok(
    l: ListModel,
    owner: Seq<char>,
    items: Seq<ListUpsertModel>,
    now: int,
) -> bool {
    &&& last_list_upsert(items, l.id) matches Some(it) && l.name == it.name && l.color == it.color
    &&& l.user_id == owner
    &&& l.updated_at == now
    &&& l.deleted_at is None
}

/// How one pre-existing task row reads after a whole phase of task upserts.
pub open spec fn ut_row(t: TaskModel, items: Seq<TaskUpsertModel>, now: int) -> TaskModel {
    match last_task_upsert(items, t.id) {
        Some(it) => upd_task(t, it, now),
        None => t,
    }
}

/// What holds of a task row the upsert phase appended.
pub open spec fn appended_task_ok(
    lists: Seq<ListModel>,
    t: TaskModel,
    owner: Seq<char>,
    items: Seq<TaskUpsertModel>,
    now: int,
) -> bool {
    &&& last_task_upsert(items, t.id) matches Some(it) && t.title == it.title && t.description
        == it.description && t.completed == it.completed && t.reminder == it.reminder
    &&& t.updated_at == now
    &&& t.deleted_at is None
    &&& list_owned(lists, t.list_id, owner)
}

/// The whole list-upsert phase, row by row: each pre-existing row is decided
/// by the last descriptor carrying its identifier, each appended row by the
/// last descriptor carrying its fresh identifier, and afterwards every
/// descriptor's identifier names a row of the caller's.
proof fn lemma_upsert_lists_effect(
    s: StoreModel,
    owner: Seq<char>,
    items: Seq<ListUpsertModel>,
    now: int,
)
    requires
        s.wf(),
        spec_upsert_lists(s, owner, items, now) is Some,
    ensures
        ({
            let r = spec_upsert_lists(s, owner, items, now)->Some_0;
            &&& r.wf()
            &&& r.tasks == s.tasks
            &&& r.lists.len() >= s.lists.len()
            &&& forall|i: int|
                0 <= i < s.lists.len() ==> #[trigger] r.lists[i] == ul_row(s.lists[i], items, now)
            &&& forall|i: int|
                s.lists.len() <= i < r.lists.len() ==> appended_list_ok(
                    #[trigger] r.lists[i],
                    owner,
                    items,
                    now,
                )
            &&& forall|j: int|
                0 <= j < items.len() ==> list_owned(r.lists, (#[trigger] items[j]).id, owner)
        }),
    decreases items.len(),
{
    let r = spec_upsert_lists(s, owner, items, now)->Some_0;
    if items.len() == 0 {
    } else {
        let pre = items.drop_last();
        let it = items.last();
        lemma_upsert_lists_effect(s, owner, pre, now);
        let rp = spec_upsert_lists(s, owner, pre, now)->Some_0;
        lemma_wf_upsert_list(rp, owner, it, now);
        assert(spec_upsert_list(rp, owner, it, now) == Some(r));

        if has_list(rp.lists, it.id) {
            assert(list_owned(rp.lists, it.id, owner));
            assert(r.lists.len() == rp.lists.len());
            assert forall|i: int| 0 <= i < s.lists.len() implies #[trigger] r.lists[i] == ul_row(
                s.lists[i],
                items,
                now,
            ) by {
                assert(r.lists[i] == upd_list(rp.lists[i], it, now));
                assert(rp.lists[i] == ul_row(s.lists[i], pre, now));
            }
            assert forall|i: int| s.lists.len() <= i < r.lists.len() implies appended_list_ok(
                #[trigger] r.lists[i],
                owner,
                items,
                now,
            ) by {
                assert(r.lists[i] == upd_list(rp.lists[i], it, now));
                assert(appended_list_ok(rp.lists[i], owner, pre, now));
            }
            assert forall|j: int| 0 <= j < items.len() implies list_owned(
                r.lists,
                (#[trigger] items[j]).id,
                owner,
            ) by {
                if j < pre.len() {
                    assert(items[j] == pre[j]);
                    let w = choose|i: int|
                        0 <= i < rp.lists.len() && (#[trigger] rp.lists[i]).id == pre[j].id
                            && rp.lists[i].user_id == owner;
                    assert(r.lists[w] == upd_list(rp.lists[w], it, now));
                    assert(r.lists[w].id == pre[j].id && r.lists[w].user_id == owner);
                } else {
                    let w = choose|i: int|
                        0 <= i < rp.lists.len() && (#[trigger] rp.lists[i]).id == it.id
                            && rp.lists[i].user_id == owner;
                    assert(r.lists[w] == upd_list(rp.lists[w], it, now));
                    assert(r.lists[w].id == it.id && r.lists[w].user_id == owner);
                }
            }
        } else {
            assert(r.lists == rp.lists.push(new_list_row(owner, it, now)));
            assert forall|i: int| 0 <= i < s.lists.len() implies #[trigger] r.lists[i] == ul_row(
                s.lists[i],
                items,
                now,
            ) by {
                assert(r.lists[i] == rp.lists[i]);
                assert(rp.lists[i] == ul_row(s.lists[i], pre, now));
                assert(rp.lists[i].id == s.lists[i].id);
                assert(s.lists[i].id != it.id);
            }
            assert forall|i: int| s.lists.len() <= i < r.lists.len() implies appended_list_ok(
                #[trigger] r.lists[i],
                owner,
                items,
                now,
            ) by {
                if i < rp.lists.len() {
                    assert(r.lists[i] == rp.lists[i]);
                    assert(appended_list_ok(rp.lists[i], owner, pre, now));
                    assert(rp.lists[i].id != it.id);
                } else {
                    assert(r.lists[i] == new_list_row(owner, it, now));
                }
            }
            assert forall|j: int| 0 <= j < items.len() implies list_owned(
                r.lists,
                (#[trigger] items[j]).id,
                owner,
            ) by {
                if j < pre.len() {
                    assert(items[j] == pre[j]);
                    let w = choose|i: int|
                        0 <= i < rp.lists.len() && (#[trigger] rp.lists[i]).id == pre[j].id
                            && rp.lists[i].user_id == owner;
                    assert(r.lists[w] == rp.lists[w]);
                } else {
                    assert(r.lists[rp.lists.len() as int] == new_list_row(owner, it, now));
                }
            }
        }
    }
}

/// The whole task-upsert phase, row by row.
proof fn lemma_upsert_tasks_effect(
    s: StoreModel,
    owner: Seq<char>,
    items: Seq<TaskUpsertModel>,
    now: int,
)
    requires
        s.wf(),
        spec_upsert_tasks(s, owner, items, now) is Some,
    ensures
        ({
            let r = spec_upsert_tasks(s, owner, items, now)->Some_0;
            &&& r.wf()
            &&& r.lists == s.lists
            &&& r.tasks.len() >= s.tasks.len()
            &&& forall|i: int|
                0 <= i < s.tasks.len() ==> #[trigger] r.tasks[i] == ut_row(s.tasks[i], items, now)
            &&& forall|i: int|
                s.tasks.len() <= i < r.tasks.len() ==> appended_task_ok(
                    s.lists,
                    #[trigger] r.tasks[i],
                    owner,
                    items,
                    now,
                )
            &&& forall|j: int|
                0 <= j < items.len() ==> task_update_allowed(r, owner, (#[trigger] items[j]).id)
        }),
    decreases items.len(),
{
    let r = spec_upsert_tasks(s, owner, items, now)->Some_0;
    if items.len() == 0 {
    } else {
        let pre = items.drop_last();
        let it = items.last();
        lemma_upsert_tasks_effect(s, owner, pre, now);
        let rp = spec_upsert_tasks(s, owner, pre, now)->Some_0;
        lemma_wf_upsert_task(rp, owner, it, now);
        assert(spec_upsert_task(rp, owner, it, now) == Some(r));

        if has_task(rp.tasks, it.id) {
            assert(task_update_allowed(rp, owner, it.id));
            assert(r.tasks.len() == rp.tasks.len());
            assert(r.lists == rp.lists);
            assert forall|i: int| 0 <= i < s.tasks.len() implies #[trigger] r.tasks[i] == ut_row(
                s.tasks[i],
                items,
                now,
            ) by {
                assert(r.tasks[i] == upd_task(rp.tasks[i], it, now));
                assert(rp.tasks[i] == ut_row(s.tasks[i], pre, now));
            }
            assert forall|i: int| s.tasks.len() <= i < r.tasks.len() implies appended_task_ok(
                s.lists,
                #[trigger] r.tasks[i],
                owner,
                items,
                now,
            ) by {
                assert(r.tasks[i] == upd_task(rp.tasks[i], it, now));
                assert(appended_task_ok(s.lists, rp.tasks[i], owner, pre, now));
            }
            assert forall|j: int| 0 <= j < items.len() implies task_update_allowed(
                r,
                owner,
                (#[trigger] items[j]).id,
            ) by {
                if j < pre.len() {
                    assert(items[j] == pre[j]);
                    let w = choose|k: int|
                        0 <= k < rp.tasks.len() && (#[trigger] rp.tasks[k]).id == pre[j].id
                            && list_owned(rp.lists, rp.tasks[k].list_id, owner);
                    assert(r.tasks[w] == upd_task(rp.tasks[w], it, now));
                    assert(r.tasks[w].id == pre[j].id && r.tasks[w].list_id
                        == rp.tasks[w].list_id);
                } else {
                    let w = choose|k: int|
                        0 <= k < rp.tasks.len() && (#[trigger] rp.tasks[k]).id == it.id
                            && list_owned(rp.lists, rp.tasks[k].list_id, owner);
                    assert(r.tasks[w] == upd_task(rp.tasks[w], it, now));
                    assert(r.tasks[w].id == it.id && r.tasks[w].list_id == rp.tasks[w].list_id);
                }
            }
        } else {
            assert(list_owned_live(rp.lists, it.list_id, owner));
            assert(r.tasks == rp.tasks.push(new_task_row(it, now)));
            assert(r.lists == rp.lists);
            assert forall|i: int| 0 <= i < s.tasks.len() implies #[trigger] r.tasks[i] == ut_row(
                s.tasks[i],
                items,
                now,
            ) by {
                assert(r.tasks[i] == rp.tasks[i]);
                assert(rp.tasks[i] == ut_row(s.tasks[i], pre, now));
                assert(rp.tasks[i].id == s.tasks[i].id);
                assert(s.tasks[i].id != it.id);
            }
            assert forall|i: int| s.tasks.len() <= i < r.tasks.len() implies appended_task_ok(
                s.lists,
                #[trigger] r.tasks[i],
                owner,
                items,
                now,
            ) by {
                if i < rp.tasks.len() {
                    assert(r.tasks[i] == rp.tasks[i]);
                    assert(appended_task_ok(s.lists, rp.tasks[i], owner, pre, now));
                    assert(rp.tasks[i].id != it.id);
                } else {
                    assert(r.tasks[i] == new_task_row(it, now));
                }
            }
            assert forall|j: int| 0 <= j < items.len() implies task_update_allowed(
                r,
                owner,
                (#[trigger] items[j]).id,
            ) by {
                if j < pre.len() {
                    assert(items[j] == pre[j]);
                    let w = choose|k: int|
                        0 <= k < rp.tasks.len() && (#[trigger] rp.tasks[k]).id == pre[j].id
                            && list_owned(rp.lists, rp.tasks[k].list_id, owner);
                    assert(r.tasks[w] == rp.tasks[w]);
                } else {
                    assert(r.tasks[rp.tasks.len() as int] == new_task_row(it, now));
                }
            }
        }
    }
}

/// Where every descriptor's identifier already names a row of the caller's,
/// the list-upsert phase is pure updates: it is accepted and touches no
/// identifier or owner.
proof fn lemma_upsert_lists_all_updates(
    s: StoreModel,
    owner: Seq<char>,
    items: Seq<ListUpsertModel>,
    now: int,
)
    requires
        s.wf(),
        forall|j: int| 0 <= j < items.len() ==> list_owned(s.lists, (#[trigger] items[j]).id, owner),
    ensures
        spec_upsert_lists(s, owner, items, now) is Some,
        ({
            let r = spec_upsert_lists(s, owner, items, now)->Some_0;
            &&& r.lists.len() == s.lists.len()
            &&& forall|i: int|
                0 <= i < s.lists.len() ==> (#[trigger] r.lists[i]).id == s.lists[i].id
                    && r.lists[i].user_id == s.lists[i].user_id
        }),
    decreases items.len(),
{
    if items.len() > 0 {
        let pre = items.drop_last();
        let it = items.last();
        assert forall|j: int| 0 <= j < pre.len() implies list_owned(
            s.lists,
            (#[trigger] pre[j]).id,
            owner,
        ) by {
            assert(pre[j] == items[j]);
        }
        lemma_upsert_lists_all_updates(s, owner, pre, now);
        let rp = spec_upsert_lists(s, owner, pre, now)->Some_0;
        let w = choose|i: int|
            0 <= i < s.lists.len() && (#[trigger] s.lists[i]).id == it.id && s.lists[i].user_id
                == owner;
        assert(rp.lists[w].id == it.id && rp.lists[w].user_id == owner);
        assert(has_list(rp.lists, it.id));
        assert(list_owned(rp.lists, it.id, owner));
        let r = spec_upsert_lists(s, owner, items, now)->Some_0;
        assert forall|i: int| 0 <= i < s.lists.len() implies (#[trigger] r.lists[i]).id
            == s.lists[i].id && r.lists[i].user_id == s.lists[i].user_id by {
            assert(r.lists[i] == upd_list(rp.lists[i], it, now));
        }
    }
}

/// Where every descriptor's identifier already names a task whose parent list
/// is the caller's, the task-upsert phase is pure updates.
proof fn lemma_upsert_tasks_all_updates(
    s: StoreModel,
    owner: Seq<char>,
    items: Seq<TaskUpsertModel>,
    now: int,
)
    requires
        s.wf(),
        forall|j: int|
            0 <= j < items.len() ==> task_update_allowed(s, owner, (#[trigger] items[j]).id),
    ensures
        spec_upsert_tasks(s, owner, items, now) is Some,
        ({
            let r = spec_upsert_tasks(s, owner, items, now)->Some_0;
            &&& r.tasks.len() == s.tasks.len()
            &&& r.lists == s.lists
            &&& forall|i: int|
                0 <= i < s.tasks.len() ==> (#[trigger] r.tasks[i]).id == s.tasks[i].id
                    && r.tasks[i].list_id == s.tasks[i].list_id
        }),
    decreases items.len(),
{
    if items.len() > 0 {
        let pre = items.drop_last();
        let it = items.last();
        assert forall|j: int| 0 <= j < pre.len() implies task_update_allowed(
            s,
            owner,
            (#[trigger] pre[j]).id,
        ) by {
            assert(pre[j] == items[j]);
        }
        lemma_upsert_tasks_all_updates(s, owner, pre, now);
        let rp = spec_upsert_tasks(s, owner, pre, now)->Some_0;
        let w = choose|k: int|
            0 <= k < s.tasks.len() && (#[trigger] s.tasks[k]).id == it.id && list_owned(
                s.lists,
                s.tasks[k].list_id,
                owner,
            );
        assert(rp.tasks[w].id == it.id && rp.tasks[w].list_id == s.tasks[w].list_id);
        assert(has_task(rp.tasks, it.id));
        assert(task_update_allowed(rp, owner, it.id));
        let r = spec_upsert_tasks(s, owner, items, now)->Some_0;
        assert forall|i: int| 0 <= i < s.tasks.len() implies (#[trigger] r.tasks[i]).id
            == s.tasks[i].id && r.tasks[i].list_id == s.tasks[i].list_id by {
            assert(r.tasks[i] == upd_task(rp.tasks[i], it, now));
        }
    }
}

/// Some list row carrying `x` is tombstoned.
pub open spec fn tombstoned_list_in(lists: Seq<ListModel>, x: Seq<char>) -> bool {
    exists|i: int|
        0 <= i < lists.len() && (#[trigger] lists[i]).id == x && lists[i].deleted_at is Some
}

/// No list the batch both deletes and recreates already carries a tombstone.
/// This is the one corner replaying cannot repair: a batch that deletes an
/// already-tombstoned list and upserts it again revives it without cascading
/// (the delete was a no-op on the tombstoned row), so a replay's delete then
/// cascades to live tasks the first pass never touched.
pub open spec fn recreated_lists_untombstoned(s: StoreModel, b: PushBatchModel) -> bool {
    forall|x: Seq<char>|
        #[trigger] b.deleted_lists.contains(x) && last_list_upsert(b.lists, x) is Some
            ==> !tombstoned_list_in(s.lists, x)
}

/// A replayed accepted batch is accepted again, and changes no row count.
proof fn lemma_replay_accepted(s: StoreModel, owner: Seq<char>, b: PushBatchModel, now: int)
    requires
        s.wf(),
        spec_push(s, owner, b, now) is Some,
    ensures
        ({
            let s1 = spec_push(s, owner, b, now)->Some_0;
            &&& s1.wf()
            &&& spec_push(s1, owner, b, now) is Some
            &&& (spec_push(s1, owner, b, now)->Some_0).lists.len() == s1.lists.len()
            &&& (spec_push(s1, owner, b, now)->Some_0).tasks.len() == s1.tasks.len()
        }),
{
    let dl = b.deleted_lists;
    let dt = b.deleted_tasks;
    let ul = b.lists;
    let ut = b.tasks;

    let sa = spec_delete_lists(s, owner, dl, now);
    let sb = spec_delete_tasks(sa, owner, dt, now);
    lemma_delete_lists_effect(s, owner, dl, now);
    lemma_delete_tasks_effect(sa, owner, dt, now);
    let sc = spec_upsert_lists(sb, owner, ul, now)->Some_0;
    lemma_upsert_lists_effect(sb, owner, ul, now);
    let s1 = spec_upsert_tasks(sc, owner, ut, now)->Some_0;
    lemma_upsert_tasks_effect(sc, owner, ut, now);
    assert(s1 == spec_push(s, owner, b, now)->Some_0);
    assert(s1.lists == sc.lists);

    let ra = spec_delete_lists(s1, owner, dl, now);
    let rb = spec_delete_tasks(ra, owner, dt, now);
    lemma_delete_lists_effect(s1, owner, dl, now);
    lemma_delete_tasks_effect(ra, owner, dt, now);

    assert forall|j: int| 0 <= j < ul.len() implies list_owned(
        rb.lists,
        (#[trigger] ul[j]).id,
        owner,
    ) by {
        let w = choose|i: int|
            0 <= i < sc.lists.len() && (#[trigger] sc.lists[i]).id == ul[j].id
                && sc.lists[i].user_id == owner;
        assert(ra.lists[w] == del_list_row(s1.lists[w], owner, dl, now));
        assert(rb.lists[w].id == ul[j].id && rb.lists[w].user_id == owner);
    }
    lemma_upsert_lists_all_updates(rb, owner, ul, now);
    let rc = spec_upsert_lists(rb, owner, ul, now)->Some_0;
    lemma_upsert_lists_effect(rb, owner, ul, now);

    assert forall|j: int| 0 <= j < ut.len() implies task_update_allowed(
        rc,
        owner,
        (#[trigger] ut[j]).id,
    ) by {
        let w = choose|k: int|
            0 <= k < s1.tasks.len() && (#[trigger] s1.tasks[k]).id == ut[j].id && list_owned(
                s1.lists,
                s1.tasks[k].list_id,
                owner,
            );
        assert(ra.tasks[w] == del_cascade_row(s1, s1.tasks[w], owner, dl, now));
        assert(rb.tasks[w] == del_task_row(ra, ra.tasks[w], owner, dt, now));
        assert(rc.tasks == rb.tasks);
        assert(rc.tasks[w].id == ut[j].id && rc.tasks[w].list_id == s1.tasks[w].list_id);
        let wp = choose|i: int|
            0 <= i < s1.lists.len() && (#[trigger] s1.lists[i]).id == s1.tasks[w].list_id
                && s1.lists[i].user_id == owner;
        assert(ra.lists[wp] == del_list_row(s1.lists[wp], owner, dl, now));
        assert(rb.lists[wp].id == s1.tasks[w].list_id && rb.lists[wp].user_id == owner);
        assert(rc.lists[wp].id == rb.lists[wp].id && rc.lists[wp].user_id == rb.lists[wp].user_id);
        assert(list_owned(rc.lists, rc.tasks[w].list_id, owner));
    }
    lemma_upsert_tasks_all_updates(rc, owner, ut, now);
    let s2 = spec_upsert_tasks(rc, owner, ut, now)->Some_0;
    assert(spec_push(s1, owner, b, now) == Some(s2));
    assert(s2.lists == rc.lists);
    assert(s2.lists.len() == s1.lists.len());
    assert(s2.tasks.len() == s1.tasks.len());
}

/// One list row of the replay equals the row the first pass left.
#[verifier::rlimit(100)]
proof fn lemma_replay_list_row(s: StoreModel, owner: Seq<char>, b: PushBatchModel, now: int, i: int)
    requires
        s.wf(),
        spec_push(s, owner, b, now) is Some,
        spec_push(spec_push(s, owner, b, now)->Some_0, owner, b, now) is Some,
        0 <= i < spec_push(s, owner, b, now)->Some_0.lists.len(),
    ensures
        (spec_push(spec_push(s, owner, b, now)->Some_0, owner, b, now)->Some_0).lists[i]
            == (spec_push(s, owner, b, now)->Some_0).lists[i],
{
    let dl = b.deleted_lists;
    let dt = b.deleted_tasks;
    let ul = b.lists;
    let ut = b.tasks;

    let sa = spec_delete_lists(s, owner, dl, now);
    let sb = spec_delete_tasks(sa, owner, dt, now);
    lemma_delete_lists_effect(s, owner, dl, now);
    lemma_delete_tasks_effect(sa, owner, dt, now);
    let sc = spec_upsert_lists(sb, owner, ul, now)->Some_0;
    lemma_upsert_lists_effect(sb, owner, ul, now);
    let s1 = spec_upsert_tasks(sc, owner, ut, now)->Some_0;
    lemma_upsert_tasks_effect(sc, owner, ut, now);
    assert(s1 == spec_push(s, owner, b, now)->Some_0);
    assert(s1.lists == sc.lists);

    let ra = spec_delete_lists(s1, owner, dl, now);
    let rb = spec_delete_tasks(ra, owner, dt, now);
    lemma_delete_lists_effect(s1, owner, dl, now);
    lemma_delete_tasks_effect(ra, owner, dt, now);
    let rc = spec_upsert_lists(rb, owner, ul, now)->Some_0;
    lemma_upsert_lists_effect(rb, owner, ul, now);
    let s2 = spec_upsert_tasks(rc, owner, ut, now)->Some_0;
    lemma_upsert_tasks_effect(rc, owner, ut, now);
    assert(s2 == spec_push(s1, owner, b, now)->Some_0);
    assert(s2.lists == rc.lists);

    let n0 = s.lists.len() as int;
    let l1 = s1.lists[i];
    assert(ra.lists[i] == del_list_row(l1, owner, dl, now));
    assert(rb.lists[i] == ra.lists[i]);
    assert(rc.lists[i] == ul_row(rb.lists[i], ul, now));
    match last_list_upsert(ul, l1.id) {
        Some(it) => {
            lemma_last_list_upsert_id(ul, l1.id);
            assert(rb.lists[i].id == l1.id);
            assert(rc.lists[i] == upd_list(rb.lists[i], it, now));
            if i < n0 {
                assert(sb.lists[i] == sa.lists[i]);
                assert(sa.lists[i] == del_list_row(s.lists[i], owner, dl, now));
                assert(sc.lists[i] == ul_row(sb.lists[i], ul, now));
                assert(l1 == sc.lists[i]);
                assert(sb.lists[i].id == l1.id);
                assert(sc.lists[i] == upd_list(sb.lists[i], it, now));
                assert(l1.name == it.name && l1.color == it.color && l1.updated_at == now
                    && l1.deleted_at is None);
            } else {
                assert(appended_list_ok(sc.lists[i], owner, ul, now));
                assert(l1 == sc.lists[i]);
                assert(last_list_upsert(ul, sc.lists[i].id) == Some(it));
                assert(l1.name == it.name && l1.color == it.color && l1.updated_at == now
                    && l1.deleted_at is None);
            }
            assert(rc.lists[i] == l1);
        },
        None => {
            if dl.contains(l1.id) && l1.user_id == owner && l1.deleted_at is None {
                if i < n0 {
                    assert(sb.lists[i] == sa.lists[i]);
                    assert(sa.lists[i] == del_list_row(s.lists[i], owner, dl, now));
                    assert(sc.lists[i] == ul_row(sb.lists[i], ul, now));
                    assert(sb.lists[i].id == l1.id);
                    assert(l1 == sb.lists[i]);
                    assert(s.lists[i].id == l1.id);
                    assert(l1 == s.lists[i]);
                    assert(false);
                } else {
                    assert(appended_list_ok(sc.lists[i], owner, ul, now));
                    assert(false);
                }
            }
            assert(rb.lists[i] == l1);
            assert(rc.lists[i] == l1);
        },
    }
}

/// One task row of the replay equals the row the first pass left.
#[verifier::rlimit(100)]
proof fn lemma_replay_task_row(s: StoreModel, owner: Seq<char>, b: PushBatchModel, now: int, k: int)
    requires
        s.wf(),
        spec_push(s, owner, b, now) is Some,
        spec_push(spec_push(s, owner, b, now)->Some_0, owner, b, now) is Some,
        recreated_lists_untombstoned(s, b),
        0 <= k < spec_push(s, owner, b, now)->Some_0.tasks.len(),
    ensures
        (spec_push(spec_push(s, owner, b, now)->Some_0, owner, b, now)->Some_0).tasks[k]
            == (spec_push(s, owner, b, now)->Some_0).tasks[k],
{
    let dl = b.deleted_lists;
    let dt = b.deleted_tasks;
    let ul = b.lists;
    let ut = b.tasks;

    let sa = spec_delete_lists(s, owner, dl, now);
    let sb = spec_delete_tasks(sa, owner, dt, now);
    lemma_delete_lists_effect(s, owner, dl, now);
    lemma_delete_tasks_effect(sa, owner, dt, now);
    let sc = spec_upsert_lists(sb, owner, ul, now)->Some_0;
    lemma_upsert_lists_effect(sb, owner, ul, now);
    let s1 = spec_upsert_tasks(sc, owner, ut, now)->Some_0;
    lemma_upsert_tasks_effect(sc, owner, ut, now);
    assert(s1 == spec_push(s, owner, b, now)->Some_0);
    assert(s1.lists == sc.lists);

    let ra = spec_delete_lists(s1, owner, dl, now);
    let rb = spec_delete_tasks(ra, owner, dt, now);
    lemma_delete_lists_effect(s1, owner, dl, now);
    lemma_delete_tasks_effect(ra, owner, dt, now);
    let rc = spec_upsert_lists(rb, owner, ul, now)->Some_0;
    lemma_upsert_lists_effect(rb, owner, ul, now);
    let s2 = spec_upsert_tasks(rc, owner, ut, now)->Some_0;
    lemma_upsert_tasks_effect(rc, owner, ut, now);
    assert(s2 == spec_push(s1, owner, b, now)->Some_0);

    let n0 = s.lists.len() as int;
    let m0 = s.tasks.len() as int;
    let t1 = s1.tasks[k];
    assert(ra.tasks[k] == del_cascade_row(s1, t1, owner, dl, now));
    assert(rb.tasks[k] == del_task_row(ra, ra.tasks[k], owner, dt, now));
    assert(rc.tasks == rb.tasks);
    assert(s2.tasks[k] == ut_row(rc.tasks[k], ut, now));
    match last_task_upsert(ut, t1.id) {
        Some(it) => {
            lemma_last_task_upsert_id(ut, t1.id);
            assert(ra.tasks[k].id == t1.id && ra.tasks[k].list_id == t1.list_id
                && ra.tasks[k].created_at == t1.created_at);
            assert(rc.tasks[k].id == t1.id && rc.tasks[k].list_id == t1.list_id
                && rc.tasks[k].created_at == t1.created_at);
            assert(s2.tasks[k] == upd_task(rc.tasks[k], it, now));
            if k < m0 {
                assert(sa.tasks[k] == del_cascade_row(s, s.tasks[k], owner, dl, now));
                assert(sb.tasks[k] == del_task_row(sa, sa.tasks[k], owner, dt, now));
                assert(sc.tasks == sb.tasks);
                assert(s1.tasks[k] == ut_row(sc.tasks[k], ut, now));
                assert(sc.tasks[k].id == t1.id);
                assert(s1.tasks[k] == upd_task(sc.tasks[k], it, now));
            } else {
                assert(appended_task_ok(sc.lists, s1.tasks[k], owner, ut, now));
            }
            assert(t1.title == it.title && t1.description == it.description && t1.completed
                == it.completed && t1.reminder == it.reminder && t1.updated_at == now
                && t1.deleted_at is None);
            assert(s2.tasks[k] == t1);
        },
        None => {
            if k >= m0 {
                assert(appended_task_ok(sc.lists, s1.tasks[k], owner, ut, now));
                assert(false);
            }
            assert(sa.tasks[k] == del_cascade_row(s, s.tasks[k], owner, dl, now));
            assert(sb.tasks[k] == del_task_row(sa, sa.tasks[k], owner, dt, now));
            assert(sc.tasks == sb.tasks);
            assert(s1.tasks[k] == ut_row(sc.tasks[k], ut, now));
            assert(sc.tasks[k].id == t1.id);
            assert(t1 == sb.tasks[k]);

            if t1.deleted_at is None && dl.contains(t1.list_id) && list_owned_live(
                s1.lists,
                t1.list_id,
                owner,
            ) {
                assert(sa.tasks[k].deleted_at is None);
                assert(s.tasks[k].deleted_at is None);
                assert(s.tasks[k].list_id == t1.list_id);
                assert(!list_owned_live(s.lists, t1.list_id, owner));
                let wp = choose|i: int|
                    0 <= i < s1.lists.len() && (#[trigger] s1.lists[i]).id == t1.list_id
                        && s1.lists[i].user_id == owner && s1.lists[i].deleted_at is None;
                if wp < n0 {
                    assert(sb.lists[wp] == sa.lists[wp]);
                    assert(sa.lists[wp] == del_list_row(s.lists[wp], owner, dl, now));
                    assert(sc.lists[wp] == ul_row(sb.lists[wp], ul, now));
                    assert(s.lists[wp].id == t1.list_id && s.lists[wp].user_id == owner);
                    match last_list_upsert(ul, t1.list_id) {
                        Some(itl) => {
                            assert(!tombstoned_list_in(s.lists, t1.list_id));
                            assert(!(s.lists[wp].deleted_at is Some));
                            assert(list_owned_live(s.lists, t1.list_id, owner));
                            assert(false);
                        },
                        None => {
                            assert(s1.lists[wp] == sb.lists[wp]);
                            assert(s1.lists[wp].deleted_at is None);
                            assert(s.lists[wp].deleted_at is None);
                            assert(list_owned_live(s.lists, t1.list_id, owner));
                            assert(false);
                        },
                    }
                } else {
                    let wo = choose|i: int|
                        0 <= i < s.lists.len() && (#[trigger] s.lists[i]).id == t1.list_id;
                    assert(sb.lists[wo] == sa.lists[wo]);
                    assert(sa.lists[wo] == del_list_row(s.lists[wo], owner, dl, now));
                    assert(sc.lists[wo] == ul_row(sb.lists[wo], ul, now));
                    assert(s1.lists[wo].id == t1.list_id);
                    assert(s1.wf());
                    assert(false);
                }
            }
            assert(ra.tasks[k] == t1);

            if t1.deleted_at is None && dt.contains(t1.id) && list_owned(
                ra.lists,
                t1.list_id,
                owner,
            ) {
                let wq = choose|i: int|
                    0 <= i < ra.lists.len() && (#[trigger] ra.lists[i]).id == t1.list_id
                        && ra.lists[i].user_id == owner;
                assert(ra.lists[wq] == del_list_row(s1.lists[wq], owner, dl, now));
                assert(s1.lists[wq].id == t1.list_id && s1.lists[wq].user_id == owner);
                if wq < n0 {
                    assert(sb.lists[wq] == sa.lists[wq]);
                    assert(sa.lists[wq] == del_list_row(s.lists[wq], owner, dl, now));
                    assert(sc.lists[wq] == ul_row(sb.lists[wq], ul, now));
                    assert(s.lists[wq].id == t1.list_id && s.lists[wq].user_id == owner);
                    assert(sa.lists[wq].id == t1.list_id && sa.lists[wq].user_id == owner);
                    assert(list_owned(sa.lists, t1.list_id, owner));
                    assert(sa.tasks[k].deleted_at is None);
                    assert(sa.tasks[k].id == t1.id && sa.tasks[k].list_id == t1.list_id);
                    assert(sb.tasks[k].deleted_at is Some);
                    assert(false);
                } else {
                    let wo = choose|i: int|
                        0 <= i < s.lists.len() && (#[trigger] s.lists[i]).id == t1.list_id;
                    assert(sb.lists[wo] == sa.lists[wo]);
                    assert(sa.lists[wo] == del_list_row(s.lists[wo], owner, dl, now));
                    assert(sc.lists[wo] == ul_row(sb.lists[wo], ul, now));
                    assert(s1.lists[wo].id == t1.list_id);
                    assert(s1.wf());
                    assert(false);
                }
            }
            assert(rb.tasks[k] == t1);
            assert(s2.tasks[k] == t1);
        },
    }
}

/// Idempotent push: replaying a whole accepted batch at the same server time
/// is accepted again and leaves every list and task row exactly as the first
/// application left it — no duplicate rows, no moved timestamps, no revived
/// or re-buried tombstones.
pub proof fn lemma_push_replay_idempotent(
    s: StoreModel,
    owner: Seq<char>,
    b: PushBatchModel,
    now: int,
)
    requires
        s.wf(),
        spec_push(s, owner, b, now) is Some,
        recreated_lists_untombstoned(s, b),
    ensures
        ({
            let s1 = spec_push(s, owner, b, now)->Some_0;
            &&& spec_push(s1, owner, b, now) is Some
            &&& (spec_push(s1, owner, b, now)->Some_0).lists == s1.lists
            &&& (spec_push(s1, owner, b, now)->Some_0).tasks == s1.tasks
        }),
{
    lemma_replay_accepted(s, owner, b, now);
    let s1 = spec_push(s, owner, b, now)->Some_0;
    let s2 = spec_push(s1, owner, b, now)->Some_0;
    assert forall|i: int| 0 <= i < s1.lists.len() implies #[trigger] s2.lists[i]
        == s1.lists[i] by {
        lemma_replay_list_row(s, owner, b, now, i);
    }
    assert forall|k: int| 0 <= k < s1.tasks.len() implies #[trigger] s2.tasks[k]
        == s1.tasks[k] by {
        lemma_replay_task_row(s, owner, b, now, k);
    }
    assert(s2.lists =~= s1.lists);
    assert(s2.tasks =~= s1.tasks);
}

} // verus!
