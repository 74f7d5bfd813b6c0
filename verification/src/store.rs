//! The entity store: lists, tasks, the audit log, and their mathematical
//! models.
//!
//! Rows are plain values. All timestamps are microseconds since the Unix
//! epoch. A row is never removed: deletion sets its `deleted_at` tombstone,
//! which later lets `Pull` report the removal to other devices.

use vstd::prelude::*;

verus! {

/// A list of tasks, owned by exactly one user.
///
/// `deleted_at` set means the list and all of its tasks are excluded from
/// every read path. `user_id` is immutable once the row is created.
#[derive(Debug, Clone, PartialEq, Eq)]
pub struct TodoList {
    pub id: String,
    pub user_id: String,
    pub name: String,
    pub color: String,
    pub created_at: i64,
    pub updated_at: i64,
    pub deleted_at: Option<i64>,
}

/// A task inside a list. Ownership is transitive through `list_id`, which is
/// immutable after creation. A task is visible only if both the task and its
/// parent list carry no tombstone.
#[derive(Debug, Clone, PartialEq, Eq)]
pub struct Task {
    pub id: String,
    pub list_id: String,
    pub title: String,
    pub description: Option<String>,
    pub completed: bool,
    pub reminder: Option<i64>,
    pub created_at: i64,
    pub updated_at: i64,
    pub deleted_at: Option<i64>,
}

/// Which kind of entity an audit entry concerns.
#[derive(Debug, Clone, Copy, PartialEq, Eq, Structural)]
pub enum EntityKind {
    List,
    Task,
}

/// What a recorded reconciliation step did.
#[derive(Debug, Clone, Copy, PartialEq, Eq, Structural)]
pub enum AuditAction {
    Create,
    Update,
    Delete,
}

/// One append-only record of a successful upsert or delete.
#[derive(Debug, Clone, PartialEq, Eq)]
pub struct AuditEntry {
    pub user_id: String,
    pub entity_kind: EntityKind,
    pub entity_id: String,
    pub action: AuditAction,
    pub at: i64,
}

/// The authoritative server store, modeled as plain data. Every operation of
/// the engine reads and writes it through contracts over [`StoreModel`].
#[derive(Debug, PartialEq, Eq)]
pub struct Store {
    pub lists: Vec<TodoList>,
    pub tasks: Vec<Task>,
    pub audit: Vec<AuditEntry>,
}

/// The mathematical value of a [`TodoList`].
#[verifier::ext_equal]
pub ghost struct ListModel {
    pub id: Seq<char>,
    pub user_id: Seq<char>,
    pub name: Seq<char>,
    pub color: Seq<char>,
    pub created_at: int,
    pub updated_at: int,
    pub deleted_at: Option<int>,
}

/// The mathematical value of a [`Task`].
#[verifier::ext_equal]
pub ghost struct TaskModel {
    pub id: Seq<char>,
    pub list_id: Seq<char>,
    pub title: Seq<char>,
    pub description: Option<Seq<char>>,
    pub completed: bool,
    pub reminder: Option<int>,
    pub created_at: int,
    pub updated_at: int,
    pub deleted_at: Option<int>,
}

/// The mathematical value of an [`AuditEntry`].
#[verifier::ext_equal]
pub ghost struct AuditModel {
    pub user_id: Seq<char>,
    pub entity_kind: EntityKind,
    pub entity_id: Seq<char>,
    pub action: AuditAction,
    pub at: int,
}

/// The mathematical value of the whole [`Store`].
#[verifier::ext_equal]
pub ghost struct StoreModel {
    pub lists: Seq<ListModel>,
    pub tasks: Seq<TaskModel>,
    pub audit: Seq<AuditModel>,
}

impl View for TodoList {
    type V = ListModel;

    open spec fn view(&self) -> ListModel {
        ListModel {
            id: self.id@,
            user_id: self.user_id@,
            name: self.name@,
            color: self.color@,
            created_at: self.created_at as int,
            updated_at: self.updated_at as int,
            deleted_at: match self.deleted_at {
                Some(t) => Some(t as int),
                None => None,
            },
        }
    }
}

impl View for Task {
    type V = TaskModel;

    open spec fn view(&self) -> TaskModel {
        TaskModel {
            id: self.id@,
            list_id: self.list_id@,
            title: self.title@,
            description: match self.description {
                Some(ref d) => Some(d@),
                None => None,
            },
            completed: self.completed,
            reminder: match self.reminder {
                Some(t) => Some(t as int),
                None => None,
            },
            created_at: self.created_at as int,
            updated_at: self.updated_at as int,
            deleted_at: match self.deleted_at {
                Some(t) => Some(t as int),
                None => None,
            },
        }
    }
}

impl View for AuditEntry {
    type V = AuditModel;

    open spec fn view(&self) -> AuditModel {
        AuditModel {
            user_id: self.user_id@,
            entity_kind: self.entity_kind,
            entity_id: self.entity_id@,
            action: self.action,
            at: self.at as int,
        }
    }
}

impl View for Store {
    type V = StoreModel;

    open spec fn view(&self) -> StoreModel {
        StoreModel {
            lists: self.lists@.map_values(|l: TodoList| l@),
            tasks: self.tasks@.map_values(|t: Task| t@),
            audit: self.audit@.map_values(|a: AuditEntry| a@),
        }
    }
}

/// Some list in `lists` carries this identifier.
pub open spec fn has_list(lists: Seq<ListModel>, id: Seq<char>) -> bool {
    exists|i: int| 0 <= i < lists.len() && lists[i].id == id
}

/// Some task in `tasks` carries this identifier.
pub open spec fn has_task(tasks: Seq<TaskModel>, id: Seq<char>) -> bool {
    exists|i: int| 0 <= i < tasks.len() && tasks[i].id == id
}

/// Some list carries this identifier and belongs to `owner` (the list itself
/// may be tombstoned).
pub open spec fn list_owned(lists: Seq<ListModel>, id: Seq<char>, owner: Seq<char>) -> bool {
    exists|i: int| 0 <= i < lists.len() && lists[i].id == id && lists[i].user_id == owner
}

/// Some list carries this identifier, belongs to `owner`, and is live.
pub open spec fn list_owned_live(lists: Seq<ListModel>, id: Seq<char>, owner: Seq<char>) -> bool {
    exists|i: int|
        0 <= i < lists.len() && lists[i].id == id && lists[i].user_id == owner
            && lists[i].deleted_at is None
}

impl StoreModel {
    /// Well-formedness: identifiers are unique per entity kind, and every
    /// task's `list_id` refers to a list that exists (soft deletion never
    /// removes a row, so the reference stays valid forever).
    pub open spec fn wf(self) -> bool {
        &&& forall|i: int, j: int|
            0 <= i < j < self.lists.len() ==> (#[trigger] self.lists[i]).id != (
            #[trigger] self.lists[j]).id
        &&& forall|i: int, j: int|
            0 <= i < j < self.tasks.len() ==> (#[trigger] self.tasks[i]).id != (
            #[trigger] self.tasks[j]).id
        &&& forall|i: int| 0 <= i < self.tasks.len() ==> has_list(self.lists, (#[trigger] self.tasks[i]).list_id)
    }

    /// The entity portion of the store: what reconciliation laws compare.
    /// The audit log is deliberately left out; it is an append-only journal,
    /// not reconciled state.
    pub open spec fn same_entities(self, other: StoreModel) -> bool {
        self.lists == other.lists && self.tasks == other.tasks
    }
}

impl Store {
    /// An empty store.
    pub fn new() -> (r: Store)
        ensures
            r@.lists === Seq::<ListModel>::empty(),
            r@.tasks === Seq::<TaskModel>::empty(),
            r@.audit === Seq::<AuditModel>::empty(),
            r@.wf(),
    {
        let r = Store { lists: Vec::new(), tasks: Vec::new(), audit: Vec::new() };
        proof {
            assert(r@.lists =~= Seq::<ListModel>::empty());
            assert(r@.tasks =~= Seq::<TaskModel>::empty());
            assert(r@.audit =~= Seq::<AuditModel>::empty());
        }
        r
    }
}

/// An exact copy of a list row.
pub fn copy_list_row(l: &TodoList) -> (r: TodoList)
    ensures
        r == *l,
{
    TodoList {
        id: l.id.clone(),
        user_id: l.user_id.clone(),
        name: l.name.clone(),
        color: l.color.clone(),
        created_at: l.created_at,
        updated_at: l.updated_at,
        deleted_at: l.deleted_at,
    }
}

/// An exact copy of a task row.
pub fn copy_task_row(t: &Task) -> (r: Task)
    ensures
        r == *t,
{
    Task {
        id: t.id.clone(),
        list_id: t.list_id.clone(),
        title: t.title.clone(),
        description: match &t.description {
            Some(d) => Some(d.clone()),
            None => None,
        },
        completed: t.completed,
        reminder: t.reminder,
        created_at: t.created_at,
        updated_at: t.updated_at,
        deleted_at: t.deleted_at,
    }
}

/// An exact copy of an audit record.
pub fn copy_audit_row(a: &AuditEntry) -> (r: AuditEntry)
    ensures
        r == *a,
{
    AuditEntry {
        user_id: a.user_id.clone(),
        entity_kind: a.entity_kind,
        entity_id: a.entity_id.clone(),
        action: a.action,
        at: a.at,
    }
}

/// An exact copy of the whole store, row by row. `Push` builds its outcome on
/// a copy and installs it only once the whole batch has been accepted, so a
/// rejected batch leaves the caller's store untouched.
pub fn snapshot_store(s: &Store) -> (r: Store)
    ensures
        r.lists@ == s.lists@,
        r.tasks@ == s.tasks@,
        r.audit@ == s.audit@,
        r@ == s@,
{
    let mut lists: Vec<TodoList> = Vec::new();
    let mut i: usize = 0;
    while i < s.lists.len()
        invariant
            i <= s.lists.len(),
            lists@ =~= s.lists@.take(i as int),
        decreases s.lists.len() - i,
    {
        lists.push(copy_list_row(&s.lists[i]));
        i += 1;
    }
    let mut tasks: Vec<Task> = Vec::new();
    let mut i: usize = 0;
    while i < s.tasks.len()
        invariant
            i <= s.tasks.len(),
            tasks@ =~= s.tasks@.take(i as int),
        decreases s.tasks.len() - i,
    {
        tasks.push(copy_task_row(&s.tasks[i]));
        i += 1;
    }
    let mut audit: Vec<AuditEntry> = Vec::new();
    let mut i: usize = 0;
    while i < s.audit.len()
        invariant
            i <= s.audit.len(),
            audit@ =~= s.audit@.take(i as int),
        decreases s.audit.len() - i,
    {
        audit.push(copy_audit_row(&s.audit[i]));
        i += 1;
    }
    let r = Store { lists, tasks, audit };
    proof {
        assert(r.lists@ =~= s.lists@);
        assert(r.tasks@ =~= s.tasks@);
        assert(r.audit@ =~= s.audit@);
        assert(r@ =~= s@);
    }
    r
}

/// The index of the list row carrying `id`, if any. Identifiers are unique
/// under [`StoreModel::wf`], so the index is the only one.
pub fn find_list(store: &Store, id: &String) -> (r: Option<usize>)
    ensures
        match r {
            Some(j) => j < store.lists.len() && store@.lists[j as int].id == id@,
            None => !has_list(store@.lists, id@),
        },
{
    let mut j: usize = 0;
    while j < store.lists.len()
        invariant
            j <= store.lists.len(),
            forall|k: int| 0 <= k < j ==> (#[trigger] store@.lists[k]).id != id@,
        decreases store.lists.len() - j,
    {
        if store.lists[j].id == *id {
            return Some(j);
        }
        j += 1;
    }
    None
}

/// Whether the list `lid` exists and belongs to `owner` (live or not).
/// Identifiers are unique under well-formedness, so the one row found decides.
pub fn list_owned_check(store: &Store, lid: &String, owner: &String) -> (r: bool)
    requires
        store@.wf(),
    ensures
        r == list_owned(store@.lists, lid@, owner@),
{
    let found = find_list(store, lid);
    match found {
        Some(j) => {
            let r = store.lists[j].user_id == *owner;
            proof {
                assert forall|i: int|
                    0 <= i < store@.lists.len() && (#[trigger] store@.lists[i]).id == lid@
                    implies i == j by {
                    if i < j {
                        assert(store@.lists[i].id != store@.lists[j as int].id);
                    } else if i > j {
                        assert(store@.lists[j as int].id != store@.lists[i].id);
                    }
                }
            }
            r
        },
        None => false,
    }
}

/// Whether the list `lid` exists, belongs to `owner`, and is live.
pub fn list_owned_live_check(store: &Store, lid: &String, owner: &String) -> (r: bool)
    requires
        store@.wf(),
    ensures
        r == list_owned_live(store@.lists, lid@, owner@),
{
    let found = find_list(store, lid);
    match found {
        Some(j) => {
            let r = store.lists[j].user_id == *owner && store.lists[j].deleted_at.is_none();
            proof {
                assert forall|i: int|
                    0 <= i < store@.lists.len() && (#[trigger] store@.lists[i]).id == lid@
                    implies i == j by {
                    if i < j {
                        assert(store@.lists[i].id != store@.lists[j as int].id);
                    } else if i > j {
                        assert(store@.lists[j as int].id != store@.lists[i].id);
                    }
                }
            }
            r
        },
        None => false,
    }
}

/// The index of the task row carrying `id`, if any.
pub fn find_task(store: &Store, id: &String) -> (r: Option<usize>)
    ensures
        match r {
            Some(j) => j < store.tasks.len() && store@.tasks[j as int].id == id@,
            None => !has_task(store@.tasks, id@),
        },
{
    let mut j: usize = 0;
    while j < store.tasks.len()
        invariant
            j <= store.tasks.len(),
            forall|k: int| 0 <= k < j ==> (#[trigger] store@.tasks[k]).id != id@,
        decreases store.tasks.len() - j,
    {
        if store.tasks[j].id == *id {
            return Some(j);
        }
        j += 1;
    }
    None
}

} // verus!
