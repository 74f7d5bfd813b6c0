//! List operations a single caller performs directly, outside of batch sync:
//! reading, creating (which upserts, so a replayed create is idempotent),
//! editing fields, and soft deletion.

use vstd::prelude::*;
use vstd::pervasive::VecAdditionalExecFns;

use crate::clock::rfc3339_micros;
use crate::errors::SyncError;
use crate::ids::generate_uuid;
use crate::pull::{ListResponse, list_response_model, pull_delta, visible_lists};
use crate::reconcile::{
    ListUpsert, ListUpsertModel, apply_delete_list, apply_upsert_list, audit_model,
    spec_delete_list, spec_upsert_list,
};
use crate::store::{
    AuditAction, AuditEntry, EntityKind, ListModel, Store, StoreModel, copy_list_row, find_list,
    list_owned_live,
};
use crate::text::{trim_text, trimmed};

verus! {

/// A request to create a list. A supplied `id` supports idempotent
/// resubmission: a known identifier turns the create into an update.
#[derive(Debug, Clone, PartialEq, Eq)]
pub struct CreateListRequest {
    pub id: Option<String>,
    pub name: String,
    pub color: Option<String>,
    pub created_at: Option<String>,
}

/// A request to edit a list's fields; absent fields keep their value.
#[derive(Debug, Clone, PartialEq, Eq)]
pub struct UpdateListRequest {
    pub name: Option<String>,
    pub color: Option<String>,
}

/// How a create request resolves into a change descriptor at server time
/// `now`; as in a `Push` batch.
pub open spec fn create_list_resolves(req: CreateListRequest, r: ListUpsertModel, now: int) -> bool {
    &&& match req.id {
        Some(s) => r.id == s@,
        None => r.id.len() == 36,
    }
    &&& r.name == trimmed(req.name@)
    &&& match req.color {
        Some(c) => r.color == c@,
        None => r.color == "#3B82F6"@,
    }
    &&& match req.created_at {
        Some(s) => match rfc3339_micros(s@) {
            Some(t) => r.created_at == t,
            None => r.created_at == now,
        },
        None => r.created_at == now,
    }
}

/// The caller's live lists, in store order.
pub fn get_lists(store: &Store, owner: &String) -> (r: Vec<ListResponse>)
    requires
        store@.wf(),
    ensures
        r@.map_values(|x: ListResponse| x@) == visible_lists(store@.lists, owner@, None),
{
    let delta = pull_delta(store, owner, None);
    delta.lists
}

/// One live list of the caller; a missing, foreign or deleted identifier is
/// the uniform not-found rejection.
pub fn get_list(store: &Store, owner: &String, list_id: &String) -> (r: Result<
    ListResponse,
    SyncError,
>)
    requires
        store@.wf(),
    ensures
        match r {
            Ok(resp) => exists|i: int|
                0 <= i < store@.lists.len() && (#[trigger] store@.lists[i]).id == list_id@
                    && store@.lists[i].user_id == owner@ && store@.lists[i].deleted_at is None
                    && resp@ == list_response_model(store@.lists[i]),
            Err(e) => e == SyncError::NotFound && !list_owned_live(store@.lists, list_id@, owner@),
        },
{
    let found = find_list(store, list_id);
    match found {
        Some(j) => {
            if store.lists[j].user_id == *owner && store.lists[j].deleted_at.is_none() {
                let l = &store.lists[j];
                Ok(
                    ListResponse {
                        id: l.id.clone(),
                        user_id: l.user_id.clone(),
                        name: l.name.clone(),
                        color: l.color.clone(),
                        created_at: l.created_at,
                        updated_at: l.updated_at,
                    },
                )
            } else {
                proof {
                    assert forall|i: int|
                        0 <= i < store@.lists.len() && (#[trigger] store@.lists[i]).id == list_id@
                        implies i == j by {
                        if i < j {
                            assert(store@.lists[i].id != store@.lists[j as int].id);
                        } else if i > j {
                            assert(store@.lists[j as int].id != store@.lists[i].id);
                        }
                    }
                }
                Err(SyncError::NotFound)
            }
        },
        None => Err(SyncError::NotFound),
    }
}

/// Creates (or, for a known identifier, updates) one list for the caller. A
/// name that trims to nothing is malformed and rejected before the store is
/// touched.
pub fn create_list(store: &mut Store, owner: &String, req: &CreateListRequest, now: i64) -> (r:
    Result<ListResponse, SyncError>)
    requires
        old(store)@.wf(),
    ensures
        final(store)@.wf(),
        match r {
            Ok(resp) => exists|it: ListUpsertModel|
                {
                    &&& #[trigger] create_list_resolves(*req, it, now as int)
                    &&& Some(final(store)@) == spec_upsert_list(old(store)@, owner@, it, now as int)
                    &&& resp.id@ == it.id
                    &&& resp.user_id@ == owner@
                    &&& resp.name@ == it.name
                    &&& resp.color@ == it.color
                    &&& resp.created_at == now
                    &&& resp.updated_at == now
                },
            Err(e) => {
                &&& final(store)@ == old(store)@
                &&& (e == SyncError::BadRequest <==> trimmed(req.name@).len() == 0)
                &&& (e == SyncError::NotFound ==> exists|it: ListUpsertModel|
                    #[trigger] create_list_resolves(*req, it, now as int) && spec_upsert_list(
                        old(store)@,
                        owner@,
                        it,
                        now as int,
                    ) is None)
            },
        },
{
    let name = trim_text(req.name.as_str());
    if name.as_str().is_empty() {
        return Err(SyncError::BadRequest);
    }
    let id = match &req.id {
        Some(s) => s.clone(),
        None => generate_uuid(),
    };
    let color = match &req.color {
        Some(c) => c.clone(),
        None => "#3B82F6".to_owned(),
    };
    let created_at = match &req.created_at {
        Some(s) => match crate::clock::parse_rfc3339(s.as_str()) {
            Some(t) => t,
            None => now,
        },
        None => now,
    };
    let item = ListUpsert { id, name, color, created_at };
    proof {
        assert(create_list_resolves(*req, item@, now as int));
    }
    let applied = apply_upsert_list(store, owner, &item, now);
    match applied {
        Ok(id) => Ok(
            ListResponse {
                id,
                user_id: owner.clone(),
                name: item.name.clone(),
                color: item.color.clone(),
                created_at: now,
                updated_at: now,
            },
        ),
        Err(e) => Err(e),
    }
}

/// Whether an edit request changes anything: a new name that trims to
/// something, or a new color.
pub open spec fn list_edit_applies(req: UpdateListRequest) -> bool {
    ||| match req.name {
        Some(n) => trimmed(n@).len() > 0,
        None => false,
    }
    ||| req.color is Some
}

/// The edited form of one list row at server time `now`.
pub open spec fn edited_list(l: ListModel, req: UpdateListRequest, now: int) -> ListModel {
    ListModel {
        name: match req.name {
            Some(n) => if trimmed(n@).len() > 0 {
                trimmed(n@)
            } else {
                l.name
            },
            None => l.name,
        },
        color: match req.color {
            Some(c) => c@,
            None => l.color,
        },
        updated_at: now,
        ..l
    }
}

/// The store after editing the list `id`.
pub open spec fn spec_update_list(
    s: StoreModel,
    owner: Seq<char>,
    id: Seq<char>,
    req: UpdateListRequest,
    now: int,
) -> StoreModel {
    StoreModel {
        lists: s.lists.map_values(
            |l: ListModel|
                if l.id == id {
                    edited_list(l, req, now)
                } else {
                    l
                },
        ),
        tasks: s.tasks,
        audit: s.audit.push(audit_model(owner, EntityKind::List, id, AuditAction::Update, now)),
    }
}

/// Edits one live list of the caller. A request that changes nothing is
/// malformed; a missing, foreign or deleted identifier is the uniform
/// not-found rejection. The whole record's `updated_at` is refreshed, so the
/// edit reaches other devices on their next `Pull`.
pub fn update_list(
    store: &mut Store,
    owner: &String,
    list_id: &String,
    req: &UpdateListRequest,
    now: i64,
) -> (r: Result<ListResponse, SyncError>)
    requires
        old(store)@.wf(),
    ensures
        final(store)@.wf(),
        match r {
            Ok(resp) => {
                &&& list_owned_live(old(store)@.lists, list_id@, owner@)
                &&& list_edit_applies(*req)
                &&& final(store)@ == spec_update_list(old(store)@, owner@, list_id@, *req, now as int)
                &&& exists|i: int|
                    0 <= i < old(store)@.lists.len() && (#[trigger] old(store)@.lists[i]).id
                        == list_id@ && resp@ == list_response_model(
                        edited_list(old(store)@.lists[i], *req, now as int),
                    )
            },
            Err(e) => {
                &&& final(store)@ == old(store)@
                &&& (e == SyncError::NotFound <==> !list_owned_live(
                    old(store)@.lists,
                    list_id@,
                    owner@,
                ))
                &&& (e == SyncError::BadRequest <==> list_owned_live(
                    old(store)@.lists,
                    list_id@,
                    owner@,
                ) && !list_edit_applies(*req))
            },
        },
{
    let found = find_list(store, list_id);
    let j = match found {
        Some(j) => {
            if store.lists[j].user_id == *owner && store.lists[j].deleted_at.is_none() {
                j
            } else {
                proof {
                    assert forall|i: int|
                        0 <= i < store@.lists.len() && (#[trigger] store@.lists[i]).id == list_id@
                        implies i == j by {
                        if i < j {
                            assert(store@.lists[i].id != store@.lists[j as int].id);
                        } else if i > j {
                            assert(store@.lists[j as int].id != store@.lists[i].id);
                        }
                    }
                }
                return Err(SyncError::NotFound);
            }
        },
        None => {
            return Err(SyncError::NotFound);
        },
    };
    let mut row = copy_list_row(&store.lists[j]);
    let mut has_updates = false;
    match &req.name {
        Some(n) => {
            let n = trim_text(n.as_str());
            if !n.as_str().is_empty() {
                row.name = n;
                has_updates = true;
            }
        },
        None => {},
    }
    match &req.color {
        Some(c) => {
            row.color = c.clone();
            has_updates = true;
        },
        None => {},
    }
    if !has_updates {
        return Err(SyncError::BadRequest);
    }
    row.updated_at = now;
    proof {
        assert(row@ == edited_list(old(store)@.lists[j as int], *req, now as int));
    }
    let resp = ListResponse {
        id: row.id.clone(),
        user_id: row.user_id.clone(),
        name: row.name.clone(),
        color: row.color.clone(),
        created_at: row.created_at,
        updated_at: row.updated_at,
    };
    store.lists.set(j, row);
    store.audit.push(
        AuditEntry {
            user_id: owner.clone(),
            entity_kind: EntityKind::List,
            entity_id: list_id.clone(),
            action: AuditAction::Update,
            at: now,
        },
    );
    proof {
        assert forall|i: int|
            0 <= i < old(store)@.lists.len() && (#[trigger] old(store)@.lists[i]).id == list_id@
            implies i == j by {
            if i < j {
                assert(old(store)@.lists[i].id != old(store)@.lists[j as int].id);
            } else if i > j {
                assert(old(store)@.lists[j as int].id != old(store)@.lists[i].id);
            }
        }
        assert(store@.lists =~= old(store)@.lists.map_values(
            |l: ListModel|
                if l.id == list_id@ {
                    edited_list(l, *req, now as int)
                } else {
                    l
                },
        ));
        assert(store@.audit =~= old(store)@.audit.push(
            audit_model(owner@, EntityKind::List, list_id@, AuditAction::Update, now as int),
        ));
        assert(store@ =~= spec_update_list(old(store)@, owner@, list_id@, *req, now as int));
        assert forall|i: int| 0 <= i < store@.tasks.len() implies crate::store::has_list(
            store@.lists,
            (#[trigger] store@.tasks[i]).list_id,
        ) by {
            let w = choose|k: int|
                0 <= k < old(store)@.lists.len() && (#[trigger] old(store)@.lists[k]).id
                    == old(store)@.tasks[i].list_id;
            assert(store@.lists[w].id == store@.tasks[i].list_id);
        }
    }
    Ok(resp)
}

/// Soft-deletes one list of the caller, cascading to its tasks; a missing,
/// foreign or already deleted identifier is a no-op success.
pub fn delete_list(store: &mut Store, owner: &String, list_id: &String, now: i64)
    requires
        old(store)@.wf(),
    ensures
        final(store)@ == spec_delete_list(old(store)@, owner@, list_id@, now as int),
        final(store)@.wf(),
{
    apply_delete_list(store, owner, list_id, now);
}

} // verus!
