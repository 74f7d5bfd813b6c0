//! The Reconciler: the merge primitives every sync operation is built from.
//!
//! An upsert is keyed by the stable identifier alone: a known identifier takes
//! the update path (so replayed delivery is idempotent), an unknown one
//! creates the row. An update overwrites the whole record, refreshes
//! `updated_at` to the server time and clears any tombstone ("undelete on
//! touch"): last writer wins, with no per-field merge and no version check.
//! A delete writes a tombstone; deleting a list cascades tombstones to its
//! live tasks; deleting a missing or already-deleted row is a no-op success.
//! Every effective step appends an audit record.

use vstd::prelude::*;
use vstd::pervasive::VecAdditionalExecFns;

use crate::errors::SyncError;
use crate::store::{
    AuditAction, AuditEntry, AuditModel, EntityKind, ListModel, Store, StoreModel, Task, TaskModel,
    TodoList, copy_list_row, copy_task_row, find_list, find_task, has_list, has_task, list_owned,
    list_owned_live,
};

verus! {

/// A fully resolved list change descriptor: identifier present, name
/// normalized, defaults applied, timestamps parsed.
#[derive(Debug, Clone, PartialEq, Eq)]
pub struct ListUpsert {
    pub id: String,
    pub name: String,
    pub color: String,
    pub created_at: i64,
}

/// A fully resolved task change descriptor.
#[derive(Debug, Clone, PartialEq, Eq)]
pub struct TaskUpsert {
    pub id: String,
    pub list_id: String,
    pub title: String,
    pub description: Option<String>,
    pub completed: bool,
    pub reminder: Option<i64>,
    pub created_at: i64,
}

/// The mathematical value of a [`ListUpsert`].
#[verifier::ext_equal]
pub ghost struct ListUpsertModel {
    pub id: Seq<char>,
    pub name: Seq<char>,
    pub color: Seq<char>,
    pub created_at: int,
}

/// The mathematical value of a [`TaskUpsert`].
#[verifier::ext_equal]
pub ghost struct TaskUpsertModel {
    pub id: Seq<char>,
    pub list_id: Seq<char>,
    pub title: Seq<char>,
    pub description: Option<Seq<char>>,
    pub completed: bool,
    pub reminder: Option<int>,
    pub created_at: int,
}

impl View for ListUpsert {
    type V = ListUpsertModel;

    open spec fn view(&self) -> ListUpsertModel {
        ListUpsertModel {
            id: self.id@,
            name: self.name@,
            color: self.color@,
            created_at: self.created_at as int,
        }
    }
}

impl View for TaskUpsert {
    type V = TaskUpsertModel;

    open spec fn view(&self) -> TaskUpsertModel {
        TaskUpsertModel {
            id: self.id@,
            list_id: self.list_id@,
            title: self.title@,
            description: match self.description {
                Some(ref d) => Some(d@),
                None => None,
            },
            completed: self.completed,
            reminder: match self.reminder {
                Some(t) => Some(t as int),
                None => None,
            },
            created_at: self.created_at as int,
        }
    }
}

/// The audit record of one effective reconciliation step.
pub open spec fn audit_model(
    owner: Seq<char>,
    kind: EntityKind,
    id: Seq<char>,
    action: AuditAction,
    now: int,
) -> AuditModel {
    AuditModel { user_id: owner, entity_kind: kind, entity_id: id, action: action, at: now }
}

/// How one list row changes when the list `id` is soft-deleted at `now`.
pub open spec fn tomb_list(l: ListModel, id: Seq<char>, now: int) -> ListModel {
    if l.id == id {
        ListModel { deleted_at: Some(now), ..l }
    } else {
        l
    }
}

/// How one task row changes when its parent list `id` is soft-deleted at
/// `now`: live tasks of the list are tombstoned, tasks already tombstoned
/// keep their original tombstone.
pub open spec fn cascade_task(t: TaskModel, id: Seq<char>, now: int) -> TaskModel {
    if t.list_id == id && t.deleted_at is None {
        TaskModel { deleted_at: Some(now), ..t }
    } else {
        t
    }
}

/// How one task row changes when the task `id` is soft-deleted at `now`.
pub open spec fn tomb_task(t: TaskModel, id: Seq<char>, now: int) -> TaskModel {
    if t.id == id {
        TaskModel { deleted_at: Some(now), ..t }
    } else {
        t
    }
}

/// How one list row changes under an update upsert: the record is replaced
/// wholesale, `updated_at` is refreshed, and any tombstone is cleared.
/// Identifier, owner and `created_at` are immutable.
pub open spec fn upd_list(l: ListModel, it: ListUpsertModel, now: int) -> ListModel {
    if l.id == it.id {
        ListModel { name: it.name, color: it.color, updated_at: now, deleted_at: None, ..l }
    } else {
        l
    }
}

/// How one task row changes under an update upsert. `list_id` is immutable
/// after creation, so the descriptor's `list_id` is ignored on this path.
pub open spec fn upd_task(t: TaskModel, it: TaskUpsertModel, now: int) -> TaskModel {
    if t.id == it.id {
        TaskModel {
            title: it.title,
            description: it.description,
            completed: it.completed,
            reminder: it.reminder,
            updated_at: now,
            deleted_at: None,
            ..t
        }
    } else {
        t
    }
}

/// The row a create upsert appends, scoped to `owner`.
pub open spec fn new_list_row(owner: Seq<char>, it: ListUpsertModel, now: int) -> ListModel {
    ListModel {
        id: it.id,
        user_id: owner,
        name: it.name,
        color: it.color,
        created_at: it.created_at,
        updated_at: now,
        deleted_at: None,
    }
}

/// The task row a create upsert appends.
pub open spec fn new_task_row(it: TaskUpsertModel, now: int) -> TaskModel {
    TaskModel {
        id: it.id,
        list_id: it.list_id,
        title: it.title,
        description: it.description,
        completed: it.completed,
        reminder: it.reminder,
        created_at: it.created_at,
        updated_at: now,
        deleted_at: None,
    }
}

/// Soft-deleting the list `id` for `owner`: if a live list with that
/// identifier belongs to the caller, it is tombstoned and the tombstone
/// cascades to its live tasks; otherwise (missing, foreign, or already
/// deleted) the store is unchanged.
pub open spec fn spec_delete_list(
    s: StoreModel,
    owner: Seq<char>,
    id: Seq<char>,
    now: int,
) -> StoreModel {
    if list_owned_live(s.lists, id, owner) {
        StoreModel {
            lists: s.lists.map_values(|l: ListModel| tomb_list(l, id, now as int)),
            tasks: s.tasks.map_values(|t: TaskModel| cascade_task(t, id, now as int)),
            audit: s.audit.push(audit_model(owner, EntityKind::List, id, AuditAction::Delete, now as int)),
        }
    } else {
        s
    }
}

/// A task may be soft-deleted when it exists, is still live, and its parent
/// list belongs to the caller.
pub open spec fn task_deletable(s: StoreModel, owner: Seq<char>, id: Seq<char>) -> bool {
    exists|i: int|
        0 <= i < s.tasks.len() && (#[trigger] s.tasks[i]).id == id && s.tasks[i].deleted_at is None
            && list_owned(s.lists, s.tasks[i].list_id, owner)
}

/// Soft-deleting the task `id` for `owner`; a missing, foreign or already
/// deleted task leaves the store unchanged.
pub open spec fn spec_delete_task(
    s: StoreModel,
    owner: Seq<char>,
    id: Seq<char>,
    now: int,
) -> StoreModel {
    if task_deletable(s, owner, id) {
        StoreModel {
            lists: s.lists,
            tasks: s.tasks.map_values(|t: TaskModel| tomb_task(t, id, now as int)),
            audit: s.audit.push(audit_model(owner, EntityKind::Task, id, AuditAction::Delete, now as int)),
        }
    } else {
        s
    }
}

/// Upserting a list: a known identifier is updated in place when the row
/// belongs to the caller and is rejected otherwise; an unknown identifier
/// creates a row scoped to the caller. `None` is the not-found-class
/// rejection.
pub open spec fn spec_upsert_list(
    s: StoreModel,
    owner: Seq<char>,
    it: ListUpsertModel,
    now: int,
) -> Option<StoreModel> {
    if has_list(s.lists, it.id) {
        if list_owned(s.lists, it.id, owner) {
            Some(
                StoreModel {
                    lists: s.lists.map_values(|l: ListModel| upd_list(l, it, now as int)),
                    tasks: s.tasks,
                    audit: s.audit.push(
                        audit_model(owner, EntityKind::List, it.id, AuditAction::Update, now as int),
                    ),
                },
            )
        } else {
            None
        }
    } else {
        Some(
            StoreModel {
                lists: s.lists.push(new_list_row(owner, it, now as int)),
                tasks: s.tasks,
                audit: s.audit.push(
                    audit_model(owner, EntityKind::List, it.id, AuditAction::Create, now as int),
                ),
            },
        )
    }
}

/// An existing task may be updated when its parent list belongs to the
/// caller (the list itself may be tombstoned: touching the task revives the
/// task, not the list).
pub open spec fn task_update_allowed(s: StoreModel, owner: Seq<char>, id: Seq<char>) -> bool {
    exists|i: int|
        0 <= i < s.tasks.len() && (#[trigger] s.tasks[i]).id == id && list_owned(
            s.lists,
            s.tasks[i].list_id,
            owner,
        )
}

/// Upserting a task: a known identifier is updated when the caller owns its
/// parent list; an unknown identifier creates the task when the referenced
/// list is owned by the caller and live. `None` is the not-found-class
/// rejection — uniform whether the reference is missing, foreign, or deleted,
/// so existence never leaks across owners.
pub open spec fn spec_upsert_task(
    s: StoreModel,
    owner: Seq<char>,
    it: TaskUpsertModel,
    now: int,
) -> Option<StoreModel> {
    if has_task(s.tasks, it.id) {
        if task_update_allowed(s, owner, it.id) {
            Some(
                StoreModel {
                    lists: s.lists,
                    tasks: s.tasks.map_values(|t: TaskModel| upd_task(t, it, now as int)),
                    audit: s.audit.push(
                        audit_model(owner, EntityKind::Task, it.id, AuditAction::Update, now as int),
                    ),
                },
            )
        } else {
            None
        }
    } else {
        if list_owned_live(s.lists, it.list_id, owner) {
            Some(
                StoreModel {
                    lists: s.lists,
                    tasks: s.tasks.push(new_task_row(it, now as int)),
                    audit: s.audit.push(
                        audit_model(owner, EntityKind::Task, it.id, AuditAction::Create, now as int),
                    ),
                },
            )
        } else {
            None
        }
    }
}

/// Deleting a list preserves well-formedness: identifiers and references are
/// untouched.
pub proof fn lemma_wf_delete_list(s: StoreModel, owner: Seq<char>, id: Seq<char>, now: int)
    requires
        s.wf(),
    ensures
        spec_delete_list(s, owner, id, now as int).wf(),
{
    let r = spec_delete_list(s, owner, id, now as int);
    assert forall|i: int| 0 <= i < r.tasks.len() implies has_list(
        r.lists,
        (#[trigger] r.tasks[i]).list_id,
    ) by {
        assert(r.tasks[i].list_id == s.tasks[i].list_id);
        let w = choose|j: int| 0 <= j < s.lists.len() && (#[trigger] s.lists[j]).id
            == s.tasks[i].list_id;
        assert(r.lists[w].id == s.tasks[i].list_id);
    }
}

/// Deleting a task preserves well-formedness.
pub proof fn lemma_wf_delete_task(s: StoreModel, owner: Seq<char>, id: Seq<char>, now: int)
    requires
        s.wf(),
    ensures
        spec_delete_task(s, owner, id, now as int).wf(),
{
    let r = spec_delete_task(s, owner, id, now as int);
    assert forall|i: int| 0 <= i < r.tasks.len() implies has_list(
        r.lists,
        (#[trigger] r.tasks[i]).list_id,
    ) by {
        assert(r.tasks[i].list_id == s.tasks[i].list_id);
    }
}

/// A successful list upsert preserves well-formedness: an update keeps every
/// identifier, a create appends an identifier that was absent.
pub proof fn lemma_wf_upsert_list(s: StoreModel, owner: Seq<char>, it: ListUpsertModel, now: int)
    requires
        s.wf(),
        spec_upsert_list(s, owner, it, now as int) is Some,
    ensures
        spec_upsert_list(s, owner, it, now as int)->Some_0.wf(),
{
    let r = spec_upsert_list(s, owner, it, now as int)->Some_0;
    if has_list(s.lists, it.id) {
        assert forall|i: int| 0 <= i < r.tasks.len() implies has_list(
            r.lists,
            (#[trigger] r.tasks[i]).list_id,
        ) by {
            let w = choose|j: int| 0 <= j < s.lists.len() && (#[trigger] s.lists[j]).id
                == s.tasks[i].list_id;
            assert(r.lists[w].id == s.tasks[i].list_id);
        }
    } else {
        assert forall|i: int, j: int| 0 <= i < j < r.lists.len() implies (
        #[trigger] r.lists[i]).id != (#[trigger] r.lists[j]).id by {
            if j == r.lists.len() - 1 {
                assert(r.lists[i] == s.lists[i]);
            }
        }
        assert forall|i: int| 0 <= i < r.tasks.len() implies has_list(
            r.lists,
            (#[trigger] r.tasks[i]).list_id,
        ) by {
            let w = choose|j: int| 0 <= j < s.lists.len() && (#[trigger] s.lists[j]).id
                == s.tasks[i].list_id;
            assert(r.lists[w].id == s.tasks[i].list_id);
        }
    }
}

/// A successful task upsert preserves well-formedness: a create refers to a
/// list shown to exist, an update changes no identifier and no reference.
pub proof fn lemma_wf_upsert_task(s: StoreModel, owner: Seq<char>, it: TaskUpsertModel, now: int)
    requires
        s.wf(),
        spec_upsert_task(s, owner, it, now as int) is Some,
    ensures
        spec_upsert_task(s, owner, it, now as int)->Some_0.wf(),
{
    let r = spec_upsert_task(s, owner, it, now as int)->Some_0;
    if has_task(s.tasks, it.id) {
        assert forall|i: int| 0 <= i < r.tasks.len() implies has_list(
            r.lists,
            (#[trigger] r.tasks[i]).list_id,
        ) by {
            assert(r.tasks[i].list_id == s.tasks[i].list_id);
        }
    } else {
        assert forall|i: int, j: int| 0 <= i < j < r.tasks.len() implies (
        #[trigger] r.tasks[i]).id != (#[trigger] r.tasks[j]).id by {
            if j == r.tasks.len() - 1 {
                assert(r.tasks[i] == s.tasks[i]);
            }
        }
        assert forall|i: int| 0 <= i < r.tasks.len() implies has_list(
            r.lists,
            (#[trigger] r.tasks[i]).list_id,
        ) by {
            if i < s.tasks.len() {
                assert(r.tasks[i].list_id == s.tasks[i].list_id);
            } else {
                let w = choose|j: int|
                    0 <= j < s.lists.len() && (#[trigger] s.lists[j]).id == it.list_id
                        && s.lists[j].user_id == owner && s.lists[j].deleted_at is None;
                assert(r.lists[w].id == it.list_id);
            }
        }
    }
}

/// Soft-deletes the list `id` scoped to `owner`, cascading to its tasks;
/// missing, foreign or already deleted identifiers are a no-op success.
#[verifier::loop_isolation(false)]
pub fn apply_delete_list(store: &mut Store, owner: &String, id: &String, now: i64)
    requires
        old(store)@.wf(),
    ensures
        final(store)@ == spec_delete_list(old(store)@, owner@, id@, now as int),
        final(store)@.wf(),
{
    proof {
        lemma_wf_delete_list(old(store)@, owner@, id@, now as int);
    }
    let found = find_list(store, id);
    match found {
        Some(j) => {
            if store.lists[j].user_id == *owner && store.lists[j].deleted_at.is_none() {
                let mut row = copy_list_row(&store.lists[j]);
                row.deleted_at = Some(now);
                store.lists.set(j, row);
                proof {
                    assert forall|m: int| 0 <= m < store@.lists.len() implies store@.lists[m]
                        == tomb_list(old(store)@.lists[m], id@, now as int) by {
                        if m != j {
                            if m < j {
                                assert(old(store)@.lists[m].id != old(store)@.lists[j as int].id);
                            } else {
                                assert(old(store)@.lists[j as int].id != old(store)@.lists[m].id);
                            }
                        }
                    }
                    assert(store@.lists =~= old(store)@.lists.map_values(
                        |l: ListModel| tomb_list(l, id@, now as int),
                    ));
                }
                let ghost lists_done = store@.lists;
                let mut k: usize = 0;
                while k < store.tasks.len()
                    invariant
                        k <= store.tasks.len(),
                        store.tasks.len() == old(store).tasks.len(),
                        store@.lists == lists_done,
                        store@.audit == old(store)@.audit,
                        forall|m: int|
                            0 <= m < k ==> #[trigger] store@.tasks[m] == cascade_task(
                                old(store)@.tasks[m],
                                id@,
                                now as int,
                            ),
                        forall|m: int|
                            k <= m < store.tasks.len() ==> #[trigger] store@.tasks[m] == old(
                                store,
                            )@.tasks[m],
                    decreases store.tasks.len() - k,
                {
                    let ghost pre = store@.tasks;
                    if store.tasks[k].list_id == *id && store.tasks[k].deleted_at.is_none() {
                        let mut t = copy_task_row(&store.tasks[k]);
                        proof {
                            assert(t@ == pre[k as int]);
                            assert(pre[k as int] == old(store)@.tasks[k as int]);
                        }
                        t.deleted_at = Some(now);
                        proof {
                            assert(t@ == TaskModel {
                                deleted_at: Some(now as int),
                                ..old(store)@.tasks[k as int]
                            });
                        }
                        store.tasks.set(k, t);
                        proof {
                            assert(store@.tasks[k as int] == t@);
                            assert forall|m: int| 0 <= m < pre.len() && m != k implies store@.tasks[m]
                                == pre[m] by {}
                            assert(store@.tasks[k as int] == cascade_task(
                                old(store)@.tasks[k as int],
                                id@,
                                now as int,
                            ));
                        }
                    } else {
                        proof {
                            assert(store@.tasks[k as int] == cascade_task(
                                old(store)@.tasks[k as int],
                                id@,
                                now as int,
                            ));
                        }
                    }
                    proof {
                        assert forall|m: int| 0 <= m <= k implies store@.tasks[m] == cascade_task(
                            old(store)@.tasks[m],
                            id@,
                            now as int,
                        ) by {
                            if m < k {
                                assert(store@.tasks[m] == pre[m]);
                                assert(pre[m] == cascade_task(
                                    old(store)@.tasks[m],
                                    id@,
                                    now as int,
                                ));
                            }
                        }
                        assert forall|m: int| k < m < store.tasks.len() implies store@.tasks[m]
                            == old(store)@.tasks[m] by {
                            assert(store@.tasks[m] == pre[m]);
                        }
                    }
                    k += 1;
                }
                proof {
                    assert(store@.tasks =~= old(store)@.tasks.map_values(
                        |t: TaskModel| cascade_task(t, id@, now as int),
                    ));
                }
                store.audit.push(
                    AuditEntry {
                        user_id: owner.clone(),
                        entity_kind: EntityKind::List,
                        entity_id: id.clone(),
                        action: AuditAction::Delete,
                        at: now,
                    },
                );
                proof {
                    assert(store@.audit =~= old(store)@.audit.push(
                        audit_model(owner@, EntityKind::List, id@, AuditAction::Delete, now as int),
                    ));
                    assert(store@ =~= spec_delete_list(old(store)@, owner@, id@, now as int));
                }
            } else {
                proof {
                    assert forall|i: int|
                        0 <= i < old(store)@.lists.len() && (#[trigger] old(store)@.lists[i]).id
                            == id@ implies i == j by {
                        if i < j {
                            assert(old(store)@.lists[i].id != old(store)@.lists[j as int].id);
                        } else if i > j {
                            assert(old(store)@.lists[j as int].id != old(store)@.lists[i].id);
                        }
                    }
                    assert(!list_owned_live(old(store)@.lists, id@, owner@));
                }
            }
        },
        None => {
            proof {
                assert(!list_owned_live(old(store)@.lists, id@, owner@));
            }
        },
    }
}

/// Soft-deletes the task `id` scoped to `owner` through its parent list;
/// missing, foreign or already deleted identifiers are a no-op success.
pub fn apply_delete_task(store: &mut Store, owner: &String, id: &String, now: i64)
    requires
        old(store)@.wf(),
    ensures
        final(store)@ == spec_delete_task(old(store)@, owner@, id@, now as int),
        final(store)@.wf(),
{
    proof {
        lemma_wf_delete_task(old(store)@, owner@, id@, now as int);
    }
    let found = find_task(store, id);
    match found {
        Some(j) => {
            let parent_owned = {
                let p = find_list(store, &store.tasks[j].list_id);
                match p {
                    Some(pj) => store.lists[pj].user_id == *owner,
                    None => false,
                }
            };
            proof {
                assert forall|i: int|
                    0 <= i < old(store)@.tasks.len() && (#[trigger] old(store)@.tasks[i]).id == id@
                    implies i == j by {
                    if i < j {
                        assert(old(store)@.tasks[i].id != old(store)@.tasks[j as int].id);
                    } else if i > j {
                        assert(old(store)@.tasks[j as int].id != old(store)@.tasks[i].id);
                    }
                }
                assert forall|pi: int, pj2: int|
                    0 <= pi < old(store)@.lists.len() && 0 <= pj2 < old(store)@.lists.len()
                        && (#[trigger] old(store)@.lists[pi]).id == (
                    #[trigger] old(store)@.lists[pj2]).id implies pi == pj2 by {
                    if pi < pj2 {
                        assert(old(store)@.lists[pi].id != old(store)@.lists[pj2].id);
                    } else if pi > pj2 {
                        assert(old(store)@.lists[pj2].id != old(store)@.lists[pi].id);
                    }
                }
                assert(parent_owned == list_owned(
                    old(store)@.lists,
                    old(store)@.tasks[j as int].list_id,
                    owner@,
                ));
            }
            if parent_owned && store.tasks[j].deleted_at.is_none() {
                let mut t = copy_task_row(&store.tasks[j]);
                t.deleted_at = Some(now);
                store.tasks.set(j, t);
                store.audit.push(
                    AuditEntry {
                        user_id: owner.clone(),
                        entity_kind: EntityKind::Task,
                        entity_id: id.clone(),
                        action: AuditAction::Delete,
                        at: now,
                    },
                );
                proof {
                    assert(task_deletable(old(store)@, owner@, id@));
                    assert forall|m: int| 0 <= m < store@.tasks.len() implies store@.tasks[m]
                        == tomb_task(old(store)@.tasks[m], id@, now as int) by {}
                    assert(store@.tasks =~= old(store)@.tasks.map_values(
                        |t: TaskModel| tomb_task(t, id@, now as int),
                    ));
                    assert(store@.audit =~= old(store)@.audit.push(
                        audit_model(owner@, EntityKind::Task, id@, AuditAction::Delete, now as int),
                    ));
                    assert(store@ =~= spec_delete_task(old(store)@, owner@, id@, now as int));
                }
            } else {
                proof {
                    assert(!task_deletable(old(store)@, owner@, id@));
                }
            }
        },
        None => {
            proof {
                assert(!task_deletable(old(store)@, owner@, id@));
            }
        },
    }
}

/// Upserts one list for `owner` and returns its stable identifier; a known
/// identifier owned by someone else is the not-found-class rejection, and the
/// store is then untouched.
pub fn apply_upsert_list(store: &mut Store, owner: &String, item: &ListUpsert, now: i64) -> (r:
    Result<String, SyncError>)
    requires
        old(store)@.wf(),
    ensures
        final(store)@.wf(),
        match r {
            Ok(id) => id@ == item@.id && Some(final(store)@) == spec_upsert_list(
                old(store)@,
                owner@,
                item@,
                now as int,
            ),
            Err(e) => e == SyncError::NotFound && final(store)@ == old(store)@ && spec_upsert_list(
                old(store)@,
                owner@,
                item@,
                now as int,
            ) is None,
        },
{
    proof {
        if spec_upsert_list(old(store)@, owner@, item@, now as int) is Some {
            lemma_wf_upsert_list(old(store)@, owner@, item@, now as int);
        }
    }
    let found = find_list(store, &item.id);
    match found {
        Some(j) => {
            proof {
                assert forall|i: int|
                    0 <= i < old(store)@.lists.len() && (#[trigger] old(store)@.lists[i]).id
                        == item@.id implies i == j by {
                    if i < j {
                        assert(old(store)@.lists[i].id != old(store)@.lists[j as int].id);
                    } else if i > j {
                        assert(old(store)@.lists[j as int].id != old(store)@.lists[i].id);
                    }
                }
            }
            if store.lists[j].user_id == *owner {
                let row = TodoList {
                    id: item.id.clone(),
                    user_id: store.lists[j].user_id.clone(),
                    name: item.name.clone(),
                    color: item.color.clone(),
                    created_at: store.lists[j].created_at,
                    updated_at: now,
                    deleted_at: None,
                };
                store.lists.set(j, row);
                store.audit.push(
                    AuditEntry {
                        user_id: owner.clone(),
                        entity_kind: EntityKind::List,
                        entity_id: item.id.clone(),
                        action: AuditAction::Update,
                        at: now,
                    },
                );
                proof {
                    assert(list_owned(old(store)@.lists, item@.id, owner@));
                    assert forall|m: int| 0 <= m < store@.lists.len() implies store@.lists[m]
                        == upd_list(old(store)@.lists[m], item@, now as int) by {}
                    assert(store@.lists =~= old(store)@.lists.map_values(
                        |l: ListModel| upd_list(l, item@, now as int),
                    ));
                    assert(store@.audit =~= old(store)@.audit.push(
                        audit_model(owner@, EntityKind::List, item@.id, AuditAction::Update, now as int),
                    ));
                    assert(store@ =~= spec_upsert_list(old(store)@, owner@, item@, now as int)->Some_0);
                }
                Ok(item.id.clone())
            } else {
                proof {
                    assert(!list_owned(old(store)@.lists, item@.id, owner@));
                }
                Err(SyncError::NotFound)
            }
        },
        None => {
            let row = TodoList {
                id: item.id.clone(),
                user_id: owner.clone(),
                name: item.name.clone(),
                color: item.color.clone(),
                created_at: item.created_at,
                updated_at: now,
                deleted_at: None,
            };
            store.lists.push(row);
            store.audit.push(
                AuditEntry {
                    user_id: owner.clone(),
                    entity_kind: EntityKind::List,
                    entity_id: item.id.clone(),
                    action: AuditAction::Create,
                    at: now,
                },
            );
            proof {
                assert(store@.lists =~= old(store)@.lists.push(new_list_row(owner@, item@, now as int)));
                assert(store@.audit =~= old(store)@.audit.push(
                    audit_model(owner@, EntityKind::List, item@.id, AuditAction::Create, now as int),
                ));
                assert(store@ =~= spec_upsert_list(old(store)@, owner@, item@, now as int)->Some_0);
            }
            Ok(item.id.clone())
        },
    }
}

/// Upserts one task for `owner` and returns its stable identifier; a
/// reference outside the caller's ownership (a foreign or deleted or missing
/// list on create, a foreign task on update) is the not-found-class
/// rejection, and the store is then untouched.
pub fn apply_upsert_task(store: &mut Store, owner: &String, item: &TaskUpsert, now: i64) -> (r:
    Result<String, SyncError>)
    requires
        old(store)@.wf(),
    ensures
        final(store)@.wf(),
        match r {
            Ok(id) => id@ == item@.id && Some(final(store)@) == spec_upsert_task(
                old(store)@,
                owner@,
                item@,
                now as int,
            ),
            Err(e) => e == SyncError::NotFound && final(store)@ == old(store)@ && spec_upsert_task(
                old(store)@,
                owner@,
                item@,
                now as int,
            ) is None,
        },
{
    proof {
        if spec_upsert_task(old(store)@, owner@, item@, now as int) is Some {
            lemma_wf_upsert_task(old(store)@, owner@, item@, now as int);
        }
    }
    let found = find_task(store, &item.id);
    match found {
        Some(j) => {
            proof {
                assert forall|i: int|
                    0 <= i < old(store)@.tasks.len() && (#[trigger] old(store)@.tasks[i]).id
                        == item@.id implies i == j by {
                    if i < j {
                        assert(old(store)@.tasks[i].id != old(store)@.tasks[j as int].id);
                    } else if i > j {
                        assert(old(store)@.tasks[j as int].id != old(store)@.tasks[i].id);
                    }
                }
            }
            let parent_owned = {
                let p = find_list(store, &store.tasks[j].list_id);
                match p {
                    Some(pj) => store.lists[pj].user_id == *owner,
                    None => false,
                }
            };
            proof {
                assert forall|pi: int, pj2: int|
                    0 <= pi < old(store)@.lists.len() && 0 <= pj2 < old(store)@.lists.len()
                        && (#[trigger] old(store)@.lists[pi]).id == (
                    #[trigger] old(store)@.lists[pj2]).id implies pi == pj2 by {
                    if pi < pj2 {
                        assert(old(store)@.lists[pi].id != old(store)@.lists[pj2].id);
                    } else if pi > pj2 {
                        assert(old(store)@.lists[pj2].id != old(store)@.lists[pi].id);
                    }
                }
                assert(parent_owned == task_update_allowed(old(store)@, owner@, item@.id));
            }
            if parent_owned {
                let row = Task {
                    id: item.id.clone(),
                    list_id: store.tasks[j].list_id.clone(),
                    title: item.title.clone(),
                    description: match &item.description {
                        Some(d) => Some(d.clone()),
                        None => None,
                    },
                    completed: item.completed,
                    reminder: item.reminder,
                    created_at: store.tasks[j].created_at,
                    updated_at: now,
                    deleted_at: None,
                };
                store.tasks.set(j, row);
                store.audit.push(
                    AuditEntry {
                        user_id: owner.clone(),
                        entity_kind: EntityKind::Task,
                        entity_id: item.id.clone(),
                        action: AuditAction::Update,
                        at: now,
                    },
                );
                proof {
                    assert forall|m: int| 0 <= m < store@.tasks.len() implies store@.tasks[m]
                        == upd_task(old(store)@.tasks[m], item@, now as int) by {}
                    assert(store@.tasks =~= old(store)@.tasks.map_values(
                        |t: TaskModel| upd_task(t, item@, now as int),
                    ));
                    assert(store@.audit =~= old(store)@.audit.push(
                        audit_model(owner@, EntityKind::Task, item@.id, AuditAction::Update, now as int),
                    ));
                    assert(store@ =~= spec_upsert_task(old(store)@, owner@, item@, now as int)->Some_0);
                }
                Ok(item.id.clone())
            } else {
                Err(SyncError::NotFound)
            }
        },
        None => {
            let parent = find_list(store, &item.list_id);
            let parent_ok = match parent {
                Some(pj) => store.lists[pj].user_id == *owner && store.lists[pj].deleted_at.is_none(),
                None => false,
            };
            proof {
                assert forall|pi: int, pj2: int|
                    0 <= pi < old(store)@.lists.len() && 0 <= pj2 < old(store)@.lists.len()
                        && (#[trigger] old(store)@.lists[pi]).id == (
                    #[trigger] old(store)@.lists[pj2]).id implies pi == pj2 by {
                    if pi < pj2 {
                        assert(old(store)@.lists[pi].id != old(store)@.lists[pj2].id);
                    } else if pi > pj2 {
                        assert(old(store)@.lists[pj2].id != old(store)@.lists[pi].id);
                    }
                }
                assert(parent_ok == list_owned_live(old(store)@.lists, item@.list_id, owner@));
            }
            if parent_ok {
                let row = Task {
                    id: item.id.clone(),
                    list_id: item.list_id.clone(),
                    title: item.title.clone(),
                    description: match &item.description {
                        Some(d) => Some(d.clone()),
                        None => None,
                    },
                    completed: item.completed,
                    reminder: item.reminder,
                    created_at: item.created_at,
                    updated_at: now,
                    deleted_at: None,
                };
                store.tasks.push(row);
                store.audit.push(
                    AuditEntry {
                        user_id: owner.clone(),
                        entity_kind: EntityKind::Task,
                        entity_id: item.id.clone(),
                        action: AuditAction::Create,
                        at: now,
                    },
                );
                proof {
                    assert(store@.tasks =~= old(store)@.tasks.push(new_task_row(item@, now as int)));
                    assert(store@.audit =~= old(store)@.audit.push(
                        audit_model(owner@, EntityKind::Task, item@.id, AuditAction::Create, now as int),
                    ));
                    assert(store@ =~= spec_upsert_task(old(store)@, owner@, item@, now as int)->Some_0);
                }
                Ok(item.id.clone())
            } else {
                Err(SyncError::NotFound)
            }
        },
    }
}

} // verus!
