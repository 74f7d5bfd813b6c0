//! Task operations a single caller performs directly: reading (always scoped
//! through the parent list's ownership), creating, editing, and soft
//! deletion.

use vstd::prelude::*;
use vstd::pervasive::VecAdditionalExecFns;

use crate::clock::rfc3339_micros;
use crate::errors::SyncError;
use crate::ids::generate_uuid;
use crate::pull::{
    TaskResponse, TaskResponseModel, pull_delta, task_response_model, visible_tasks,
};
use crate::reconcile::{
    TaskUpsert, TaskUpsertModel, apply_delete_task, apply_upsert_task, audit_model,
    spec_delete_task, spec_upsert_task,
};
use crate::store::{
    AuditAction, AuditEntry, EntityKind, Store, StoreModel, Task, TaskModel,
    copy_task_row, find_task, has_list, list_owned_live, list_owned_live_check,
};
use crate::text::{trim_text, trimmed};

verus! {

/// A request to create a task. A supplied `id` supports idempotent
/// resubmission: a known identifier turns the create into an update.
#[derive(Debug, Clone, PartialEq, Eq)]
pub struct CreateTaskRequest {
    pub id: Option<String>,
    pub list_id: String,
    pub title: String,
    pub description: Option<String>,
    pub completed: Option<bool>,
    pub reminder: Option<String>,
    pub created_at: Option<String>,
}

/// A request to edit a task's fields; absent fields keep their value. An
/// empty description or reminder clears the field.
#[derive(Debug, Clone, PartialEq, Eq)]
pub struct UpdateTaskRequest {
    pub title: Option<String>,
    pub description: Option<String>,
    pub completed: Option<bool>,
    pub reminder: Option<String>,
}

/// How a create request resolves into a change descriptor at server time
/// `now`; as in a `Push` batch.
pub open spec fn create_task_resolves(req: CreateTaskRequest, r: TaskUpsertModel, now: int) -> bool {
    &&& match req.id {
        Some(s) => r.id == s@,
        None => r.id.len() == 36,
    }
    &&& r.list_id == req.list_id@
    &&& r.title == trimmed(req.title@)
    &&& match req.description {
        Some(d) => r.description == Some(d@),
        None => r.description is None,
    }
    &&& match req.completed {
        Some(c) => r.completed == c,
        None => r.completed == false,
    }
    &&& match req.reminder {
        Some(s) => r.reminder == rfc3339_micros(s@),
        None => r.reminder is None,
    }
    &&& match req.created_at {
        Some(s) => match rfc3339_micros(s@) {
            Some(t) => r.created_at == t,
            None => r.created_at == now,
        },
        None => r.created_at == now,
    }
}

/// All of the caller's live tasks under live lists, in store order.
pub fn get_all_tasks(store: &Store, owner: &String) -> (r: Vec<TaskResponse>)
    requires
        store@.wf(),
    ensures
        r@.map_values(|x: TaskResponse| x@) == visible_tasks(
            store@.lists,
            store@.tasks,
            owner@,
            None,
        ),
{
    let delta = pull_delta(store, owner, None);
    delta.tasks
}

/// The live tasks of one list, in store order.
pub open spec fn tasks_of_list(tasks: Seq<TaskModel>, lid: Seq<char>) -> Seq<TaskResponseModel> {
    tasks.filter(|t: TaskModel| t.list_id == lid && t.deleted_at is None).map_values(
        |t: TaskModel| task_response_model(t),
    )
}

/// Extending the scanned prefix of one list's tasks by one row.
pub proof fn lemma_tasks_of_list_step(tasks: Seq<TaskModel>, lid: Seq<char>, i: int)
    requires
        0 <= i < tasks.len(),
    ensures
        tasks_of_list(tasks.take(i + 1), lid) == if tasks[i].list_id == lid
            && tasks[i].deleted_at is None {
            tasks_of_list(tasks.take(i), lid).push(task_response_model(tasks[i]))
        } else {
            tasks_of_list(tasks.take(i), lid)
        },
{
    reveal(Seq::filter);
    let pred = |t: TaskModel| t.list_id == lid && t.deleted_at is None;
    assert(tasks.take(i + 1).drop_last() =~= tasks.take(i));
    assert(tasks.take(i + 1).last() == tasks[i]);
    if pred(tasks[i]) {
        assert(tasks.take(i + 1).filter(pred) == tasks.take(i).filter(pred).push(tasks[i]));
        assert(tasks_of_list(tasks.take(i + 1), lid) =~= tasks_of_list(tasks.take(i), lid).push(
            task_response_model(tasks[i]),
        ));
    } else {
        assert(tasks_of_list(tasks.take(i + 1), lid) =~= tasks_of_list(tasks.take(i), lid));
    }
}

/// The live tasks of one live list of the caller; a missing, foreign or
/// deleted list is the uniform not-found rejection.
#[verifier::loop_isolation(false)]
pub fn get_tasks_by_list(store: &Store, owner: &String, list_id: &String) -> (r: Result<
    Vec<TaskResponse>,
    SyncError,
>)
    requires
        store@.wf(),
    ensures
        match r {
            Ok(resp) => list_owned_live(store@.lists, list_id@, owner@)
                && resp@.map_values(|x: TaskResponse| x@) == tasks_of_list(store@.tasks, list_id@),
            Err(e) => e == SyncError::NotFound && !list_owned_live(store@.lists, list_id@, owner@),
        },
{
    if !list_owned_live_check(store, list_id, owner) {
        return Err(SyncError::NotFound);
    }
    let mut out: Vec<TaskResponse> = Vec::new();
    let mut i: usize = 0;
    proof {
        assert(store@.tasks.take(0) =~= Seq::<TaskModel>::empty());
        reveal(Seq::filter);
        assert(out@.map_values(|x: TaskResponse| x@) =~= tasks_of_list(
            store@.tasks.take(0),
            list_id@,
        ));
    }
    while i < store.tasks.len()
        invariant
            i <= store.tasks.len(),
            out@.map_values(|x: TaskResponse| x@) == tasks_of_list(
                store@.tasks.take(i as int),
                list_id@,
            ),
        decreases store.tasks.len() - i,
    {
        proof {
            lemma_tasks_of_list_step(store@.tasks, list_id@, i as int);
        }
        if store.tasks[i].list_id == *list_id && store.tasks[i].deleted_at.is_none() {
            let t = task_response_of_row(&store.tasks[i]);
            out.push(t);
            proof {
                assert(out@.map_values(|x: TaskResponse| x@) =~= tasks_of_list(
                    store@.tasks.take(i as int + 1),
                    list_id@,
                ));
            }
        } else {
            proof {
                assert(out@.map_values(|x: TaskResponse| x@) =~= tasks_of_list(
                    store@.tasks.take(i as int + 1),
                    list_id@,
                ));
            }
        }
        i += 1;
    }
    proof {
        assert(store@.tasks.take(store.tasks.len() as int) =~= store@.tasks);
    }
    Ok(out)
}

/// One live task of the caller, scoped through its live parent list.
pub fn get_task(store: &Store, owner: &String, task_id: &String) -> (r: Result<
    TaskResponse,
    SyncError,
>)
    requires
        store@.wf(),
    ensures
        match r {
            Ok(resp) => exists|i: int|
                0 <= i < store@.tasks.len() && (#[trigger] store@.tasks[i]).id == task_id@
                    && store@.tasks[i].deleted_at is None && list_owned_live(
                    store@.lists,
                    store@.tasks[i].list_id,
                    owner@,
                ) && resp@ == task_response_model(store@.tasks[i]),
            Err(e) => e == SyncError::NotFound && !task_readable(store@, owner@, task_id@),
        },
{
    let found = find_task(store, task_id);
    match found {
        Some(j) => {
            proof {
                assert forall|i: int|
                    0 <= i < store@.tasks.len() && (#[trigger] store@.tasks[i]).id == task_id@
                    implies i == j by {
                    if i < j {
                        assert(store@.tasks[i].id != store@.tasks[j as int].id);
                    } else if i > j {
                        assert(store@.tasks[j as int].id != store@.tasks[i].id);
                    }
                }
            }
            if store.tasks[j].deleted_at.is_none() && list_owned_live_check(
                store,
                &store.tasks[j].list_id,
                owner,
            ) {
                Ok(task_response_of_row(&store.tasks[j]))
            } else {
                Err(SyncError::NotFound)
            }
        },
        None => Err(SyncError::NotFound),
    }
}

/// A task the read paths may show the caller: it exists, is live, and its
/// parent list is live and the caller's.
pub open spec fn task_readable(s: StoreModel, owner: Seq<char>, id: Seq<char>) -> bool {
    exists|i: int|
        0 <= i < s.tasks.len() && (#[trigger] s.tasks[i]).id == id && s.tasks[i].deleted_at is None
            && list_owned_live(s.lists, s.tasks[i].list_id, owner)
}

/// Creates (or, for a known identifier, updates) one task for the caller. An
/// empty `list_id` or a title that trims to nothing is malformed; a
/// reference outside the caller's live lists is the uniform not-found
/// rejection, and the store is then untouched.
pub fn create_task(store: &mut Store, owner: &String, req: &CreateTaskRequest, now: i64) -> (r:
    Result<TaskResponse, SyncError>)
    requires
        old(store)@.wf(),
    ensures
        final(store)@.wf(),
        match r {
            Ok(resp) => exists|it: TaskUpsertModel|
                {
                    &&& #[trigger] create_task_resolves(*req, it, now as int)
                    &&& Some(final(store)@) == spec_upsert_task(old(store)@, owner@, it, now as int)
                    &&& resp.id@ == it.id
                    &&& resp.list_id@ == req.list_id@
                    &&& resp.title@ == it.title
                    &&& resp.completed == it.completed
                    &&& resp.created_at == now
                    &&& resp.updated_at == now
                },
            Err(e) => {
                &&& final(store)@ == old(store)@
                &&& (e == SyncError::BadRequest <==> (req.list_id@.len() == 0 || trimmed(
                    req.title@,
                ).len() == 0))
                &&& (e == SyncError::NotFound ==> !list_owned_live(
                    old(store)@.lists,
                    req.list_id@,
                    owner@,
                ) || exists|it: TaskUpsertModel|
                    #[trigger] create_task_resolves(*req, it, now as int) && spec_upsert_task(
                        old(store)@,
                        owner@,
                        it,
                        now as int,
                    ) is None)
            },
        },
{
    let title = trim_text(req.title.as_str());
    if req.list_id.as_str().is_empty() || title.as_str().is_empty() {
        return Err(SyncError::BadRequest);
    }
    if !list_owned_live_check(store, &req.list_id, owner) {
        return Err(SyncError::NotFound);
    }
    let id = match &req.id {
        Some(s) => s.clone(),
        None => generate_uuid(),
    };
    let description = match &req.description {
        Some(d) => Some(d.clone()),
        None => None,
    };
    let completed = match req.completed {
        Some(c) => c,
        None => false,
    };
    let reminder = match &req.reminder {
        Some(s) => crate::clock::parse_rfc3339(s.as_str()),
        None => None,
    };
    let created_at = match &req.created_at {
        Some(s) => match crate::clock::parse_rfc3339(s.as_str()) {
            Some(t) => t,
            None => now,
        },
        None => now,
    };
    let item = TaskUpsert {
        id,
        list_id: req.list_id.clone(),
        title,
        description,
        completed,
        reminder,
        created_at,
    };
    proof {
        assert(create_task_resolves(*req, item@, now as int));
    }
    let applied = apply_upsert_task(store, owner, &item, now);
    match applied {
        Ok(id) => Ok(
            TaskResponse {
                id,
                list_id: item.list_id.clone(),
                title: item.title.clone(),
                description: match &item.description {
                    Some(d) => Some(d.clone()),
                    None => None,
                },
                completed: item.completed,
                reminder: item.reminder,
                created_at: now,
                updated_at: now,
            },
        ),
        Err(e) => Err(e),
    }
}

/// The edited form of one task row at server time `now`: a new title is
/// trimmed, an empty description or reminder clears the field, a reminder is
/// kept only where it parses.
pub open spec fn edited_task(t: TaskModel, req: UpdateTaskRequest, now: int) -> TaskModel {
    TaskModel {
        title: match req.title {
            Some(x) => trimmed(x@),
            None => t.title,
        },
        description: match req.description {
            Some(d) => if d@.len() == 0 {
                None
            } else {
                Some(d@)
            },
            None => t.description,
        },
        completed: match req.completed {
            Some(c) => c,
            None => t.completed,
        },
        reminder: match req.reminder {
            Some(x) => if x@.len() == 0 {
                None
            } else {
                rfc3339_micros(x@)
            },
            None => t.reminder,
        },
        updated_at: now,
        ..t
    }
}

/// The store after editing the task `id`.
pub open spec fn spec_update_task(
    s: StoreModel,
    owner: Seq<char>,
    id: Seq<char>,
    req: UpdateTaskRequest,
    now: int,
) -> StoreModel {
    StoreModel {
        lists: s.lists,
        tasks: s.tasks.map_values(
            |t: TaskModel|
                if t.id == id {
                    edited_task(t, req, now)
                } else {
                    t
                },
        ),
        audit: s.audit.push(audit_model(owner, EntityKind::Task, id, AuditAction::Update, now)),
    }
}

/// Edits one live, readable task of the caller; a missing, foreign or
/// deleted identifier is the uniform not-found rejection.
pub fn update_task(
    store: &mut Store,
    owner: &String,
    task_id: &String,
    req: &UpdateTaskRequest,
    now: i64,
) -> (r: Result<TaskResponse, SyncError>)
    requires
        old(store)@.wf(),
    ensures
        final(store)@.wf(),
        match r {
            Ok(resp) => {
                &&& task_readable(old(store)@, owner@, task_id@)
                &&& final(store)@ == spec_update_task(old(store)@, owner@, task_id@, *req, now as int)
                &&& exists|i: int|
                    0 <= i < old(store)@.tasks.len() && (#[trigger] old(store)@.tasks[i]).id
                        == task_id@ && resp@ == task_response_model(
                        edited_task(old(store)@.tasks[i], *req, now as int),
                    )
            },
            Err(e) => {
                &&& e == SyncError::NotFound
                &&& final(store)@ == old(store)@
                &&& !task_readable(old(store)@, owner@, task_id@)
            },
        },
{
    let found = find_task(store, task_id);
    let j = match found {
        Some(j) => j,
        None => {
            return Err(SyncError::NotFound);
        },
    };
    proof {
        assert forall|i: int|
            0 <= i < store@.tasks.len() && (#[trigger] store@.tasks[i]).id == task_id@ implies i
            == j by {
            if i < j {
                assert(store@.tasks[i].id != store@.tasks[j as int].id);
            } else if i > j {
                assert(store@.tasks[j as int].id != store@.tasks[i].id);
            }
        }
    }
    if !(store.tasks[j].deleted_at.is_none() && list_owned_live_check(
        store,
        &store.tasks[j].list_id,
        owner,
    )) {
        return Err(SyncError::NotFound);
    }
    let mut row = copy_task_row(&store.tasks[j]);
    match &req.title {
        Some(x) => {
            row.title = trim_text(x.as_str());
        },
        None => {},
    }
    match &req.description {
        Some(d) => {
            row.description = if d.as_str().is_empty() {
                None
            } else {
                Some(d.clone())
            };
        },
        None => {},
    }
    match req.completed {
        Some(c) => {
            row.completed = c;
        },
        None => {},
    }
    match &req.reminder {
        Some(x) => {
            row.reminder = if x.as_str().is_empty() {
                None
            } else {
                crate::clock::parse_rfc3339(x.as_str())
            };
        },
        None => {},
    }
    row.updated_at = now;
    proof {
        assert(row@ == edited_task(old(store)@.tasks[j as int], *req, now as int));
    }
    let resp = task_response_of_row(&row);
    store.tasks.set(j, row);
    store.audit.push(
        AuditEntry {
            user_id: owner.clone(),
            entity_kind: EntityKind::Task,
            entity_id: task_id.clone(),
            action: AuditAction::Update,
            at: now,
        },
    );
    proof {
        assert(store@.tasks =~= old(store)@.tasks.map_values(
            |t: TaskModel|
                if t.id == task_id@ {
                    edited_task(t, *req, now as int)
                } else {
                    t
                },
        ));
        assert(store@.audit =~= old(store)@.audit.push(
            audit_model(owner@, EntityKind::Task, task_id@, AuditAction::Update, now as int),
        ));
        assert(store@ =~= spec_update_task(old(store)@, owner@, task_id@, *req, now as int));
        assert forall|i: int| 0 <= i < store@.tasks.len() implies has_list(
            store@.lists,
            (#[trigger] store@.tasks[i]).list_id,
        ) by {
            assert(store@.tasks[i].list_id == old(store)@.tasks[i].list_id);
        }
    }
    Ok(resp)
}

/// Soft-deletes one task of the caller; a missing, foreign or already
/// deleted identifier is a no-op success.
pub fn delete_task(store: &mut Store, owner: &String, task_id: &String, now: i64)
    requires
        old(store)@.wf(),
    ensures
        final(store)@ == spec_delete_task(old(store)@, owner@, task_id@, now as int),
        final(store)@.wf(),
{
    apply_delete_task(store, owner, task_id, now);
}

/// The response form of one task row, copied field by field.
fn task_response_of_row(t: &Task) -> (r: TaskResponse)
    ensures
        r@ == task_response_model(t@),
{
    TaskResponse {
        id: t.id.clone(),
        list_id: t.list_id.clone(),
        title: t.title.clone(),
        description: match &t.description {
            Some(d) => Some(d.clone()),
            None => None,
        },
        completed: t.completed,
        reminder: t.reminder,
        created_at: t.created_at,
        updated_at: t.updated_at,
    }
}

} // verus!
