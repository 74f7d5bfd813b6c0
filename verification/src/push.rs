//! The `Push` operation: merging a client's locally known change set into the
//! store in one atomic step.
//!
//! A batch is applied in a fixed order — delete lists, delete tasks, upsert
//! lists, upsert tasks — so that a client that deletes a list and recreates
//! an entity under it in the same batch observes a clean create. The whole
//! batch is all-or-nothing: if any upsert is rejected, the store keeps its
//! prior state and the caller receives a single failure.

use vstd::prelude::*;

use crate::clock::{now_micros, renderable_micros, rfc3339_micros, rfc3339_text, server_time_text};
use crate::errors::SyncError;
use crate::ids::generate_uuid;
use crate::reconcile::{
    ListUpsert, ListUpsertModel, TaskUpsert, TaskUpsertModel, apply_delete_list, apply_delete_task,
    apply_upsert_list, apply_upsert_task, spec_delete_list, spec_delete_task, spec_upsert_list,
    spec_upsert_task,
};
use crate::store::{Store, StoreModel, snapshot_store};
use crate::text::{trim_text, trimmed};

verus! {

/// One list in a `Push` request, exactly as the client sent it. An absent
/// `id` asks the server to assign one; timestamps are RFC 3339 text;
/// `updated_at` is ignored — the server stamps its own time.
#[derive(Debug, Clone, PartialEq, Eq)]
pub struct SyncListItem {
    pub id: Option<String>,
    pub name: String,
    pub color: Option<String>,
    pub created_at: Option<String>,
    pub updated_at: Option<String>,
}

/// One task in a `Push` request, exactly as the client sent it.
#[derive(Debug, Clone, PartialEq, Eq)]
pub struct SyncTaskItem {
    pub id: Option<String>,
    pub list_id: String,
    pub title: String,
    pub description: Option<String>,
    pub completed: Option<bool>,
    pub reminder: Option<String>,
    pub created_at: Option<String>,
    pub updated_at: Option<String>,
}

/// A client's locally known change set: upserts and deletions for both
/// entity kinds.
#[derive(Debug, Clone, PartialEq, Eq)]
pub struct SyncPushRequest {
    pub lists: Vec<SyncListItem>,
    pub tasks: Vec<SyncTaskItem>,
    pub deleted_lists: Vec<String>,
    pub deleted_tasks: Vec<String>,
}

/// What a successful `Push` reports back: how many entities each phase
/// processed, and the server time the client may adopt as its next watermark.
#[derive(Debug, Clone, PartialEq, Eq)]
pub struct SyncPushResponse {
    pub synced_lists: usize,
    pub synced_tasks: usize,
    pub deleted_lists: usize,
    pub deleted_tasks: usize,
    pub server_time: String,
}

/// A fully resolved batch: every upsert carries an identifier, names are
/// normalized, defaults are applied and timestamps parsed.
#[derive(Debug, Clone, PartialEq, Eq)]
pub struct PushBatch {
    pub lists: Vec<ListUpsert>,
    pub tasks: Vec<TaskUpsert>,
    pub deleted_lists: Vec<String>,
    pub deleted_tasks: Vec<String>,
}

/// The counts a completed batch reports.
#[derive(Debug, Clone, Copy, PartialEq, Eq)]
pub struct PushCounts {
    pub synced_lists: usize,
    pub synced_tasks: usize,
    pub deleted_lists: usize,
    pub deleted_tasks: usize,
}

/// The mathematical value of a [`PushBatch`].
#[verifier::ext_equal]
pub ghost struct PushBatchModel {
    pub lists: Seq<ListUpsertModel>,
    pub tasks: Seq<TaskUpsertModel>,
    pub deleted_lists: Seq<Seq<char>>,
    pub deleted_tasks: Seq<Seq<char>>,
}

impl View for PushBatch {
    type V = PushBatchModel;

    open spec fn view(&self) -> PushBatchModel {
        PushBatchModel {
            lists: self.lists@.map_values(|l: ListUpsert| l@),
            tasks: self.tasks@.map_values(|t: TaskUpsert| t@),
            deleted_lists: self.deleted_lists@.map_values(|s: String| s@),
            deleted_tasks: self.deleted_tasks@.map_values(|s: String| s@),
        }
    }
}

/// The store after the list deletions of a batch, applied left to right.
pub open spec fn spec_delete_lists(
    s: StoreModel,
    owner: Seq<char>,
    ids: Seq<Seq<char>>,
    now: int,
) -> StoreModel
    decreases ids.len(),
{
    if ids.len() == 0 {
        s
    } else {
        spec_delete_list(spec_delete_lists(s, owner, ids.drop_last(), now), owner, ids.last(), now)
    }
}

/// The store after the task deletions of a batch, applied left to right.
pub open spec fn spec_delete_tasks(
    s: StoreModel,
    owner: Seq<char>,
    ids: Seq<Seq<char>>,
    now: int,
) -> StoreModel
    decreases ids.len(),
{
    if ids.len() == 0 {
        s
    } else {
        spec_delete_task(spec_delete_tasks(s, owner, ids.drop_last(), now), owner, ids.last(), now)
    }
}

/// The store after the list upserts of a batch, applied left to right;
/// `None` as soon as one is rejected.
pub open spec fn spec_upsert_lists(
    s: StoreModel,
    owner: Seq<char>,
    items: Seq<ListUpsertModel>,
    now: int,
) -> Option<StoreModel>
    decreases items.len(),
{
    if items.len() == 0 {
        Some(s)
    } else {
        match spec_upsert_lists(s, owner, items.drop_last(), now) {
            Some(w) => spec_upsert_list(w, owner, items.last(), now),
            None => None,
        }
    }
}

/// The store after the task upserts of a batch, applied left to right;
/// `None` as soon as one is rejected.
pub open spec fn spec_upsert_tasks(
    s: StoreModel,
    owner: Seq<char>,
    items: Seq<TaskUpsertModel>,
    now: int,
) -> Option<StoreModel>
    decreases items.len(),
{
    if items.len() == 0 {
        Some(s)
    } else {
        match spec_upsert_tasks(s, owner, items.drop_last(), now) {
            Some(w) => spec_upsert_task(w, owner, items.last(), now),
            None => None,
        }
    }
}

/// The store a whole batch produces, in the fixed phase order, or `None`
/// where any upsert is rejected.
pub open spec fn spec_push(
    s: StoreModel,
    owner: Seq<char>,
    b: PushBatchModel,
    now: int,
) -> Option<StoreModel> {
    let s1 = spec_delete_lists(s, owner, b.deleted_lists, now);
    let s2 = spec_delete_tasks(s1, owner, b.deleted_tasks, now);
    match spec_upsert_lists(s2, owner, b.lists, now) {
        Some(s3) => spec_upsert_tasks(s3, owner, b.tasks, now),
        None => None,
    }
}

/// Extending the processed prefix of list deletions by one element.
pub proof fn lemma_delete_lists_step(
    s: StoreModel,
    owner: Seq<char>,
    ids: Seq<Seq<char>>,
    now: int,
    i: int,
)
    requires
        0 <= i < ids.len(),
    ensures
        spec_delete_lists(s, owner, ids.take(i + 1), now) == spec_delete_list(
            spec_delete_lists(s, owner, ids.take(i), now),
            owner,
            ids[i],
            now,
        ),
{
    assert(ids.take(i + 1).drop_last() =~= ids.take(i));
    assert(ids.take(i + 1).last() == ids[i]);
}

/// Extending the processed prefix of task deletions by one element.
pub proof fn lemma_delete_tasks_step(
    s: StoreModel,
    owner: Seq<char>,
    ids: Seq<Seq<char>>,
    now: int,
    i: int,
)
    requires
        0 <= i < ids.len(),
    ensures
        spec_delete_tasks(s, owner, ids.take(i + 1), now) == spec_delete_task(
            spec_delete_tasks(s, owner, ids.take(i), now),
            owner,
            ids[i],
            now,
        ),
{
    assert(ids.take(i + 1).drop_last() =~= ids.take(i));
    assert(ids.take(i + 1).last() == ids[i]);
}

/// Extending the processed prefix of list upserts by one element.
pub proof fn lemma_upsert_lists_step(
    s: StoreModel,
    owner: Seq<char>,
    items: Seq<ListUpsertModel>,
    now: int,
    i: int,
)
    requires
        0 <= i < items.len(),
    ensures
        spec_upsert_lists(s, owner, items.take(i + 1), now) == match spec_upsert_lists(
            s,
            owner,
            items.take(i),
            now,
        ) {
            Some(w) => spec_upsert_list(w, owner, items[i], now),
            None => None,
        },
{
    assert(items.take(i + 1).drop_last() =~= items.take(i));
    assert(items.take(i + 1).last() == items[i]);
}

/// Extending the processed prefix of task upserts by one element.
pub proof fn lemma_upsert_tasks_step(
    s: StoreModel,
    owner: Seq<char>,
    items: Seq<TaskUpsertModel>,
    now: int,
    i: int,
)
    requires
        0 <= i < items.len(),
    ensures
        spec_upsert_tasks(s, owner, items.take(i + 1), now) == match spec_upsert_tasks(
            s,
            owner,
            items.take(i),
            now,
        ) {
            Some(w) => spec_upsert_task(w, owner, items[i], now),
            None => None,
        },
{
    assert(items.take(i + 1).drop_last() =~= items.take(i));
    assert(items.take(i + 1).last() == items[i]);
}

/// A rejection in a prefix of the list upserts rejects the whole phase.
pub proof fn lemma_upsert_lists_none(
    s: StoreModel,
    owner: Seq<char>,
    items: Seq<ListUpsertModel>,
    now: int,
    i: int,
)
    requires
        0 <= i <= items.len(),
        spec_upsert_lists(s, owner, items.take(i), now) is None,
    ensures
        spec_upsert_lists(s, owner, items, now) is None,
    decreases items.len() - i,
{
    if i == items.len() {
        assert(items.take(i) =~= items);
    } else {
        lemma_upsert_lists_step(s, owner, items, now, i);
        lemma_upsert_lists_none(s, owner, items, now, i + 1);
    }
}

/// A rejection in a prefix of the task upserts rejects the whole phase.
pub proof fn lemma_upsert_tasks_none(
    s: StoreModel,
    owner: Seq<char>,
    items: Seq<TaskUpsertModel>,
    now: int,
    i: int,
)
    requires
        0 <= i <= items.len(),
        spec_upsert_tasks(s, owner, items.take(i), now) is None,
    ensures
        spec_upsert_tasks(s, owner, items, now) is None,
    decreases items.len() - i,
{
    if i == items.len() {
        assert(items.take(i) =~= items);
    } else {
        lemma_upsert_tasks_step(s, owner, items, now, i);
        lemma_upsert_tasks_none(s, owner, items, now, i + 1);
    }
}

/// Applies a resolved batch to the store in one atomic step at server time
/// `now`: on success the store is exactly what [`spec_push`] defines and the
/// counts cover the whole batch; on rejection the store is untouched.
#[verifier::loop_isolation(false)]
pub fn push(store: &mut Store, owner: &String, batch: &PushBatch, now: i64) -> (r: Result<
    PushCounts,
    SyncError,
>)
    requires
        old(store)@.wf(),
    ensures
        final(store)@.wf(),
        match r {
            Ok(c) => {
                &&& Some(final(store)@) == spec_push(old(store)@, owner@, batch@, now as int)
                &&& c.synced_lists == batch.lists.len()
                &&& c.synced_tasks == batch.tasks.len()
                &&& c.deleted_lists == batch.deleted_lists.len()
                &&& c.deleted_tasks == batch.deleted_tasks.len()
            },
            Err(e) => {
                &&& e == SyncError::NotFound
                &&& final(store)@ == old(store)@
                &&& spec_push(old(store)@, owner@, batch@, now as int) is None
            },
        },
{
    let ghost s0 = old(store)@;
    let ghost dls = batch@.deleted_lists;
    let ghost dts = batch@.deleted_tasks;
    let ghost uls = batch@.lists;
    let ghost uts = batch@.tasks;
    let ghost s1 = spec_delete_lists(s0, owner@, dls, now as int);
    let ghost s2 = spec_delete_tasks(s1, owner@, dts, now as int);

    let mut work = snapshot_store(store);

    let mut i: usize = 0;
    proof {
        assert(dls.take(0) =~= Seq::<Seq<char>>::empty());
    }
    while i < batch.deleted_lists.len()
        invariant
            i <= batch.deleted_lists.len(),
            work@.wf(),
            work@ == spec_delete_lists(s0, owner@, dls.take(i as int), now as int),
        decreases batch.deleted_lists.len() - i,
    {
        proof {
            lemma_delete_lists_step(s0, owner@, dls, now as int, i as int);
        }
        apply_delete_list(&mut work, owner, &batch.deleted_lists[i], now);
        i += 1;
    }
    proof {
        assert(dls.take(batch.deleted_lists.len() as int) =~= dls);
        assert(work@ == s1);
    }

    let mut i: usize = 0;
    proof {
        assert(dts.take(0) =~= Seq::<Seq<char>>::empty());
    }
    while i < batch.deleted_tasks.len()
        invariant
            i <= batch.deleted_tasks.len(),
            work@.wf(),
            work@ == spec_delete_tasks(s1, owner@, dts.take(i as int), now as int),
        decreases batch.deleted_tasks.len() - i,
    {
        proof {
            lemma_delete_tasks_step(s1, owner@, dts, now as int, i as int);
        }
        apply_delete_task(&mut work, owner, &batch.deleted_tasks[i], now);
        i += 1;
    }
    proof {
        assert(dts.take(batch.deleted_tasks.len() as int) =~= dts);
        assert(work@ == s2);
    }

    let mut i: usize = 0;
    proof {
        assert(uls.take(0) =~= Seq::<ListUpsertModel>::empty());
    }
    while i < batch.lists.len()
        invariant
            i <= batch.lists.len(),
            work@.wf(),
            Some(work@) == spec_upsert_lists(s2, owner@, uls.take(i as int), now as int),
        decreases batch.lists.len() - i,
    {
        proof {
            lemma_upsert_lists_step(s2, owner@, uls, now as int, i as int);
        }
        let step = apply_upsert_list(&mut work, owner, &batch.lists[i], now);
        match step {
            Ok(_) => {},
            Err(e) => {
                proof {
                    lemma_upsert_lists_none(s2, owner@, uls, now as int, i as int + 1);
                }
                return Err(e);
            },
        }
        i += 1;
    }
    let ghost s3 = work@;
    proof {
        assert(uls.take(batch.lists.len() as int) =~= uls);
        assert(Some(s3) == spec_upsert_lists(s2, owner@, uls, now as int));
    }

    let mut i: usize = 0;
    proof {
        assert(uts.take(0) =~= Seq::<TaskUpsertModel>::empty());
    }
    while i < batch.tasks.len()
        invariant
            i <= batch.tasks.len(),
            work@.wf(),
            Some(work@) == spec_upsert_tasks(s3, owner@, uts.take(i as int), now as int),
        decreases batch.tasks.len() - i,
    {
        proof {
            lemma_upsert_tasks_step(s3, owner@, uts, now as int, i as int);
        }
        let step = apply_upsert_task(&mut work, owner, &batch.tasks[i], now);
        match step {
            Ok(_) => {},
            Err(e) => {
                proof {
                    lemma_upsert_tasks_none(s3, owner@, uts, now as int, i as int + 1);
                }
                return Err(e);
            },
        }
        i += 1;
    }
    proof {
        assert(uts.take(batch.tasks.len() as int) =~= uts);
    }

    let counts = PushCounts {
        synced_lists: batch.lists.len(),
        synced_tasks: batch.tasks.len(),
        deleted_lists: batch.deleted_lists.len(),
        deleted_tasks: batch.deleted_tasks.len(),
    };
    *store = work;
    Ok(counts)
}

/// How a raw list item resolves into a change descriptor at server time
/// `now`: a supplied identifier is kept and an absent one is served fresh
/// (36 characters), the name is trimmed, an absent color falls back to the
/// default, and `created_at` falls back to `now` when absent or unparsable.
pub open spec fn list_item_resolves(item: SyncListItem, r: ListUpsertModel, now: int) -> bool {
    &&& match item.id {
        Some(s) => r.id == s@,
        None => r.id.len() == 36,
    }
    &&& r.name == trimmed(item.name@)
    &&& match item.color {
        Some(c) => r.color == c@,
        None => r.color == "#3B82F6"@,
    }
    &&& match item.created_at {
        Some(s) => match rfc3339_micros(s@) {
            Some(t) => r.created_at == t,
            None => r.created_at == now,
        },
        None => r.created_at == now,
    }
}

/// How a raw task item resolves: as for lists, with the title trimmed, an
/// absent completion flag defaulting to false, and a reminder kept only where
/// it parses.
pub open spec fn task_item_resolves(item: SyncTaskItem, r: TaskUpsertModel, now: int) -> bool {
    &&& match item.id {
        Some(s) => r.id == s@,
        None => r.id.len() == 36,
    }
    &&& r.list_id == item.list_id@
    &&& r.title == trimmed(item.title@)
    &&& match item.description {
        Some(d) => r.description == Some(d@),
        None => r.description is None,
    }
    &&& match item.completed {
        Some(c) => r.completed == c,
        None => r.completed == false,
    }
    &&& match item.reminder {
        Some(s) => r.reminder == rfc3339_micros(s@),
        None => r.reminder is None,
    }
    &&& match item.created_at {
        Some(s) => match rfc3339_micros(s@) {
            Some(t) => r.created_at == t,
            None => r.created_at == now,
        },
        None => r.created_at == now,
    }
}

/// How a whole raw request resolves into a batch.
pub open spec fn batch_resolves(req: SyncPushRequest, b: PushBatchModel, now: int) -> bool {
    &&& b.lists.len() == req.lists@.len()
    &&& forall|i: int|
        0 <= i < b.lists.len() ==> list_item_resolves(req.lists@[i], #[trigger] b.lists[i], now)
    &&& b.tasks.len() == req.tasks@.len()
    &&& forall|i: int|
        0 <= i < b.tasks.len() ==> task_item_resolves(req.tasks@[i], #[trigger] b.tasks[i], now)
    &&& b.deleted_lists == req.deleted_lists@.map_values(|s: String| s@)
    &&& b.deleted_tasks == req.deleted_tasks@.map_values(|s: String| s@)
}

/// Resolves one raw list item, drawing a fresh identifier where none was
/// supplied.
pub fn resolve_list_item(item: &SyncListItem, now: i64) -> (r: ListUpsert)
    ensures
        list_item_resolves(*item, r@, now as int),
{
    let id = match &item.id {
        Some(s) => s.clone(),
        None => generate_uuid(),
    };
    let name = trim_text(item.name.as_str());
    let color = match &item.color {
        Some(c) => c.clone(),
        None => "#3B82F6".to_owned(),
    };
    let created_at = match &item.created_at {
        Some(s) => match crate::clock::parse_rfc3339(s.as_str()) {
            Some(t) => t,
            None => now,
        },
        None => now,
    };
    ListUpsert { id, name, color, created_at }
}

/// Resolves one raw task item.
pub fn resolve_task_item(item: &SyncTaskItem, now: i64) -> (r: TaskUpsert)
    ensures
        task_item_resolves(*item, r@, now as int),
{
    let id = match &item.id {
        Some(s) => s.clone(),
        None => generate_uuid(),
    };
    let title = trim_text(item.title.as_str());
    let description = match &item.description {
        Some(d) => Some(d.clone()),
        None => None,
    };
    let completed = match item.completed {
        Some(c) => c,
        None => false,
    };
    let reminder = match &item.reminder {
        Some(s) => crate::clock::parse_rfc3339(s.as_str()),
        None => None,
    };
    let created_at = match &item.created_at {
        Some(s) => match crate::clock::parse_rfc3339(s.as_str()) {
            Some(t) => t,
            None => now,
        },
        None => now,
    };
    TaskUpsert { id, list_id: item.list_id.clone(), title, description, completed, reminder, created_at }
}

/// Resolves a whole raw request into a batch at server time `now`.
pub fn resolve_push_request(req: &SyncPushRequest, now: i64) -> (r: PushBatch)
    ensures
        batch_resolves(*req, r@, now as int),
{
    let mut lists: Vec<ListUpsert> = Vec::new();
    let mut i: usize = 0;
    while i < req.lists.len()
        invariant
            i <= req.lists.len(),
            lists@.len() == i,
            forall|k: int|
                0 <= k < i ==> list_item_resolves(req.lists@[k], #[trigger] lists@[k]@, now as int),
        decreases req.lists.len() - i,
    {
        let item = resolve_list_item(&req.lists[i], now);
        lists.push(item);
        i += 1;
    }
    let mut tasks: Vec<TaskUpsert> = Vec::new();
    let mut i: usize = 0;
    while i < req.tasks.len()
        invariant
            i <= req.tasks.len(),
            tasks@.len() == i,
            forall|k: int|
                0 <= k < i ==> task_item_resolves(req.tasks@[k], #[trigger] tasks@[k]@, now as int),
        decreases req.tasks.len() - i,
    {
        let item = resolve_task_item(&req.tasks[i], now);
        tasks.push(item);
        i += 1;
    }
    let mut deleted_lists: Vec<String> = Vec::new();
    let mut i: usize = 0;
    while i < req.deleted_lists.len()
        invariant
            i <= req.deleted_lists.len(),
            deleted_lists@.len() == i,
            forall|k: int| 0 <= k < i ==> #[trigger] deleted_lists@[k]@ == req.deleted_lists@[k]@,
        decreases req.deleted_lists.len() - i,
    {
        deleted_lists.push(req.deleted_lists[i].clone());
        i += 1;
    }
    let mut deleted_tasks: Vec<String> = Vec::new();
    let mut i: usize = 0;
    while i < req.deleted_tasks.len()
        invariant
            i <= req.deleted_tasks.len(),
            deleted_tasks@.len() == i,
            forall|k: int| 0 <= k < i ==> #[trigger] deleted_tasks@[k]@ == req.deleted_tasks@[k]@,
        decreases req.deleted_tasks.len() - i,
    {
        deleted_tasks.push(req.deleted_tasks[i].clone());
        i += 1;
    }
    let r = PushBatch { lists, tasks, deleted_lists, deleted_tasks };
    proof {
        assert(r@.deleted_lists =~= req.deleted_lists@.map_values(|s: String| s@));
        assert(r@.deleted_tasks =~= req.deleted_tasks@.map_values(|s: String| s@));
    }
    r
}

/// The boundary form of `Push`: takes the raw request, stamps the server
/// time, resolves the batch, and applies it atomically. A rejected batch
/// leaves the store exactly as it was; a completed batch is [`spec_push`] of
/// some resolution of the request at some server instant.
pub fn sync_push(store: &mut Store, owner: &String, req: &SyncPushRequest) -> (r: Result<
    SyncPushResponse,
    SyncError,
>)
    requires
        old(store)@.wf(),
    ensures
        final(store)@.wf(),
        match r {
            Ok(resp) => {
                &&& resp.synced_lists == req.lists.len()
                &&& resp.synced_tasks == req.tasks.len()
                &&& resp.deleted_lists == req.deleted_lists.len()
                &&& resp.deleted_tasks == req.deleted_tasks.len()
                &&& exists|now: int, b: PushBatchModel|
                    #[trigger] batch_resolves(*req, b, now) && Some(final(store)@) == spec_push(
                        old(store)@,
                        owner@,
                        b,
                        now,
                    ) && (renderable_micros(now) ==> resp.server_time@ == rfc3339_text(now))
            },
            Err(e) => {
                &&& e == SyncError::NotFound
                &&& final(store)@ == old(store)@
                &&& exists|now: int, b: PushBatchModel|
                    #[trigger] batch_resolves(*req, b, now) && spec_push(
                        old(store)@,
                        owner@,
                        b,
                        now,
                    ) is None
            },
        },
{
    let now = now_micros();
    let batch = resolve_push_request(req, now);
    let outcome = push(store, owner, &batch, now);
    match outcome {
        Ok(c) => {
            let server_time = server_time_text(now);
            proof {
                assert(batch_resolves(*req, batch@, now as int) && Some(final(store)@) == spec_push(
                    old(store)@,
                    owner@,
                    batch@,
                    now as int,
                ) && (renderable_micros(now as int) ==> server_time@ == rfc3339_text(now as int)));
            }
            Ok(
                SyncPushResponse {
                    synced_lists: c.synced_lists,
                    synced_tasks: c.synced_tasks,
                    deleted_lists: c.deleted_lists,
                    deleted_tasks: c.deleted_tasks,
                    server_time,
                },
            )
        },
        Err(e) => {
            proof {
                assert(batch_resolves(*req, batch@, now as int) && spec_push(
                    old(store)@,
                    owner@,
                    batch@,
                    now as int,
                ) is None);
            }
            Err(e)
        },
    }
}

} // verus!
