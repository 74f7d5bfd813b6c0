//! The read side of the protocol: `Pull` computes the incremental delta past
//! a watermark, `FullSync` returns a fresh live snapshot.
//!
//! A watermark is a single instant the server handed out with an earlier
//! response. `Pull` reports live rows whose `updated_at` lies strictly past
//! it and tombstones whose `deleted_at` lies strictly past it — strictly, so
//! that a row stamped exactly at the watermark is never delivered twice.
//! Without a watermark, `Pull` returns the caller's entire live snapshot and
//! no tombstones. All reads are scoped to the caller: lists by their owner,
//! tasks through their parent list.

use vstd::prelude::*;

use crate::clock::{now_micros, renderable_micros, rfc3339_micros, rfc3339_text, server_time_text};
use crate::clock::parse_watermark;
use crate::errors::SyncError;
use crate::store::{
    ListModel, Store, StoreModel, Task, TaskModel, TodoList, list_owned, list_owned_check,
    list_owned_live, list_owned_live_check,
};

verus! {

/// A list as read paths report it: the live row without its tombstone column.
#[derive(Debug, Clone, PartialEq, Eq)]
pub struct ListResponse {
    pub id: String,
    pub user_id: String,
    pub name: String,
    pub color: String,
    pub created_at: i64,
    pub updated_at: i64,
}

/// A task as read paths report it.
#[derive(Debug, Clone, PartialEq, Eq)]
pub struct TaskResponse {
    pub id: String,
    pub list_id: String,
    pub title: String,
    pub description: Option<String>,
    pub completed: bool,
    pub reminder: Option<i64>,
    pub created_at: i64,
    pub updated_at: i64,
}

/// The mathematical value of a [`ListResponse`].
#[verifier::ext_equal]
pub ghost struct ListResponseModel {
    pub id: Seq<char>,
    pub user_id: Seq<char>,
    pub name: Seq<char>,
    pub color: Seq<char>,
    pub created_at: int,
    pub updated_at: int,
}

/// The mathematical value of a [`TaskResponse`].
#[verifier::ext_equal]
pub ghost struct TaskResponseModel {
    pub id: Seq<char>,
    pub list_id: Seq<char>,
    pub title: Seq<char>,
    pub description: Option<Seq<char>>,
    pub completed: bool,
    pub reminder: Option<int>,
    pub created_at: int,
    pub updated_at: int,
}

impl View for ListResponse {
    type V = ListResponseModel;

    open spec fn view(&self) -> ListResponseModel {
        ListResponseModel {
            id: self.id@,
            user_id: self.user_id@,
            name: self.name@,
            color: self.color@,
            created_at: self.created_at as int,
            updated_at: self.updated_at as int,
        }
    }
}

impl View for TaskResponse {
    type V = TaskResponseModel;

    open spec fn view(&self) -> TaskResponseModel {
        TaskResponseModel {
            id: self.id@,
            list_id: self.list_id@,
            title: self.title@,
            description: match self.description {
                Some(ref d) => Some(d@),
                None => None,
            },
            completed: self.completed,
            reminder: match self.reminder {
                Some(t) => Some(t as int),
                None => None,
            },
            created_at: self.created_at as int,
            updated_at: self.updated_at as int,
        }
    }
}

impl From<TodoList> for ListResponse {
    fn from(l: TodoList) -> (r: ListResponse) {
        ListResponse {
            id: l.id,
            user_id: l.user_id,
            name: l.name,
            color: l.color,
            created_at: l.created_at,
            updated_at: l.updated_at,
        }
    }
}

impl vstd::std_specs::convert::FromSpecImpl<TodoList> for ListResponse {
    open spec fn obeys_from_spec() -> bool {
        true
    }

    open spec fn from_spec(l: TodoList) -> ListResponse {
        ListResponse {
            id: l.id,
            user_id: l.user_id,
            name: l.name,
            color: l.color,
            created_at: l.created_at,
            updated_at: l.updated_at,
        }
    }
}

impl From<Task> for TaskResponse {
    fn from(t: Task) -> (r: TaskResponse) {
        TaskResponse {
            id: t.id,
            list_id: t.list_id,
            title: t.title,
            description: t.description,
            completed: t.completed,
            reminder: t.reminder,
            created_at: t.created_at,
            updated_at: t.updated_at,
        }
    }
}

impl vstd::std_specs::convert::FromSpecImpl<Task> for TaskResponse {
    open spec fn obeys_from_spec() -> bool {
        true
    }

    open spec fn from_spec(t: Task) -> TaskResponse {
        TaskResponse {
            id: t.id,
            list_id: t.list_id,
            title: t.title,
            description: t.description,
            completed: t.completed,
            reminder: t.reminder,
            created_at: t.created_at,
            updated_at: t.updated_at,
        }
    }
}

/// What a `Pull` delivers, before the server time is stamped on.
#[derive(Debug, Clone, PartialEq, Eq)]
pub struct PullDelta {
    pub lists: Vec<ListResponse>,
    pub tasks: Vec<TaskResponse>,
    pub deleted_lists: Vec<String>,
    pub deleted_tasks: Vec<String>,
}

/// The mathematical value of a [`PullDelta`].
#[verifier::ext_equal]
pub ghost struct PullDeltaModel {
    pub lists: Seq<ListResponseModel>,
    pub tasks: Seq<TaskResponseModel>,
    pub deleted_lists: Seq<Seq<char>>,
    pub deleted_tasks: Seq<Seq<char>>,
}

impl View for PullDelta {
    type V = PullDeltaModel;

    open spec fn view(&self) -> PullDeltaModel {
        PullDeltaModel {
            lists: self.lists@.map_values(|l: ListResponse| l@),
            tasks: self.tasks@.map_values(|t: TaskResponse| t@),
            deleted_lists: self.deleted_lists@.map_values(|s: String| s@),
            deleted_tasks: self.deleted_tasks@.map_values(|s: String| s@),
        }
    }
}

/// The raw body of a `Pull` request: the watermark the client replays, as the
/// RFC 3339 text an earlier response handed it.
#[derive(Debug, Clone, PartialEq, Eq)]
pub struct SyncPullRequest {
    pub last_sync: Option<String>,
}

/// What `Pull` answers.
#[derive(Debug, Clone, PartialEq, Eq)]
pub struct SyncPullResponse {
    pub lists: Vec<ListResponse>,
    pub tasks: Vec<TaskResponse>,
    pub deleted_lists: Vec<String>,
    pub deleted_tasks: Vec<String>,
    pub server_time: String,
}

/// What `FullSync` answers: a fresh baseline has nothing to subtract, so no
/// deletion lists are returned.
#[derive(Debug, Clone, PartialEq, Eq)]
pub struct SyncFullResponse {
    pub lists: Vec<ListResponse>,
    pub tasks: Vec<TaskResponse>,
    pub server_time: String,
}

/// A watermark as a mathematical value.
pub open spec fn wm_model(w: Option<i64>) -> Option<int> {
    match w {
        Some(t) => Some(t as int),
        None => None,
    }
}

/// The response form of a list row.
pub open spec fn list_response_model(l: ListModel) -> ListResponseModel {
    ListResponseModel {
        id: l.id,
        user_id: l.user_id,
        name: l.name,
        color: l.color,
        created_at: l.created_at,
        updated_at: l.updated_at,
    }
}

/// The response form of a task row.
pub open spec fn task_response_model(t: TaskModel) -> TaskResponseModel {
    TaskResponseModel {
        id: t.id,
        list_id: t.list_id,
        title: t.title,
        description: t.description,
        completed: t.completed,
        reminder: t.reminder,
        created_at: t.created_at,
        updated_at: t.updated_at,
    }
}

/// A list row `Pull` delivers: owned by the caller, live, and past the
/// watermark where one is given.
pub open spec fn live_list_visible(l: ListModel, owner: Seq<char>, wm: Option<int>) -> bool {
    l.user_id == owner && l.deleted_at is None && match wm {
        Some(w) => l.updated_at > w,
        None => true,
    }
}

/// A task row `Pull` delivers: live, under a live list of the caller, and
/// past the watermark where one is given.
pub open spec fn live_task_visible(
    lists: Seq<ListModel>,
    t: TaskModel,
    owner: Seq<char>,
    wm: Option<int>,
) -> bool {
    t.deleted_at is None && list_owned_live(lists, t.list_id, owner) && match wm {
        Some(w) => t.updated_at > w,
        None => true,
    }
}

/// A list tombstone `Pull` reports for the watermark `w`.
pub open spec fn list_tombstone_reported(l: ListModel, owner: Seq<char>, w: int) -> bool {
    l.user_id == owner && match l.deleted_at {
        Some(d) => d > w,
        None => false,
    }
}

/// A task tombstone `Pull` reports for the watermark `w`. Ownership goes
/// through the parent list whether or not the list itself is tombstoned, so a
/// cascade is reported for the tasks as well as for the list.
pub open spec fn task_tombstone_reported(
    lists: Seq<ListModel>,
    t: TaskModel,
    owner: Seq<char>,
    w: int,
) -> bool {
    list_owned(lists, t.list_id, owner) && match t.deleted_at {
        Some(d) => d > w,
        None => false,
    }
}

/// The live lists a `Pull` delivers, in store order.
pub open spec fn visible_lists(
    lists: Seq<ListModel>,
    owner: Seq<char>,
    wm: Option<int>,
) -> Seq<ListResponseModel> {
    lists.filter(|l: ListModel| live_list_visible(l, owner, wm)).map_values(
        |l: ListModel| list_response_model(l),
    )
}

/// The live tasks a `Pull` delivers, in store order.
pub open spec fn visible_tasks(
    lists: Seq<ListModel>,
    tasks: Seq<TaskModel>,
    owner: Seq<char>,
    wm: Option<int>,
) -> Seq<TaskResponseModel> {
    tasks.filter(|t: TaskModel| live_task_visible(lists, t, owner, wm)).map_values(
        |t: TaskModel| task_response_model(t),
    )
}

/// The list tombstones a `Pull` reports, as identifiers in store order.
pub open spec fn tombstoned_list_ids(lists: Seq<ListModel>, owner: Seq<char>, w: int) -> Seq<
    Seq<char>,
> {
    lists.filter(|l: ListModel| list_tombstone_reported(l, owner, w)).map_values(
        |l: ListModel| l.id,
    )
}

/// The task tombstones a `Pull` reports.
pub open spec fn tombstoned_task_ids(
    lists: Seq<ListModel>,
    tasks: Seq<TaskModel>,
    owner: Seq<char>,
    w: int,
) -> Seq<Seq<char>> {
    tasks.filter(|t: TaskModel| task_tombstone_reported(lists, t, owner, w)).map_values(
        |t: TaskModel| t.id,
    )
}

/// Everything one `Pull` delivers for `owner` at watermark `wm`.
pub open spec fn spec_pull(s: StoreModel, owner: Seq<char>, wm: Option<int>) -> PullDeltaModel {
    PullDeltaModel {
        lists: visible_lists(s.lists, owner, wm),
        tasks: visible_tasks(s.lists, s.tasks, owner, wm),
        deleted_lists: match wm {
            Some(w) => tombstoned_list_ids(s.lists, owner, w),
            None => Seq::empty(),
        },
        deleted_tasks: match wm {
            Some(w) => tombstoned_task_ids(s.lists, s.tasks, owner, w),
            None => Seq::empty(),
        },
    }
}

/// Extending the scanned prefix of lists by one row.
pub proof fn lemma_visible_lists_step(
    lists: Seq<ListModel>,
    owner: Seq<char>,
    wm: Option<int>,
    i: int,
)
    requires
        0 <= i < lists.len(),
    ensures
        visible_lists(lists.take(i + 1), owner, wm) == if live_list_visible(lists[i], owner, wm) {
            visible_lists(lists.take(i), owner, wm).push(list_response_model(lists[i]))
        } else {
            visible_lists(lists.take(i), owner, wm)
        },
{
    reveal(Seq::filter);
    let pred = |l: ListModel| live_list_visible(l, owner, wm);
    assert(lists.take(i + 1).drop_last() =~= lists.take(i));
    assert(lists.take(i + 1).last() == lists[i]);
    if pred(lists[i]) {
        assert(lists.take(i + 1).filter(pred) == lists.take(i).filter(pred).push(lists[i]));
        assert(visible_lists(lists.take(i + 1), owner, wm) =~= visible_lists(
            lists.take(i),
            owner,
            wm,
        ).push(list_response_model(lists[i])));
    } else {
        assert(visible_lists(lists.take(i + 1), owner, wm) =~= visible_lists(
            lists.take(i),
            owner,
            wm,
        ));
    }
}

/// Extending the scanned prefix of tasks by one row.
pub proof fn lemma_visible_tasks_step(
    lists: Seq<ListModel>,
    tasks: Seq<TaskModel>,
    owner: Seq<char>,
    wm: Option<int>,
    i: int,
)
    requires
        0 <= i < tasks.len(),
    ensures
        visible_tasks(lists, tasks.take(i + 1), owner, wm) == if live_task_visible(
            lists,
            tasks[i],
            owner,
            wm,
        ) {
            visible_tasks(lists, tasks.take(i), owner, wm).push(task_response_model(tasks[i]))
        } else {
            visible_tasks(lists, tasks.take(i), owner, wm)
        },
{
    reveal(Seq::filter);
    let pred = |t: TaskModel| live_task_visible(lists, t, owner, wm);
    assert(tasks.take(i + 1).drop_last() =~= tasks.take(i));
    assert(tasks.take(i + 1).last() == tasks[i]);
    if pred(tasks[i]) {
        assert(tasks.take(i + 1).filter(pred) == tasks.take(i).filter(pred).push(tasks[i]));
        assert(visible_tasks(lists, tasks.take(i + 1), owner, wm) =~= visible_tasks(
            lists,
            tasks.take(i),
            owner,
            wm,
        ).push(task_response_model(tasks[i])));
    } else {
        assert(visible_tasks(lists, tasks.take(i + 1), owner, wm) =~= visible_tasks(
            lists,
            tasks.take(i),
            owner,
            wm,
        ));
    }
}

/// Extending the scanned prefix of list tombstones by one row.
pub proof fn lemma_tombstoned_list_ids_step(lists: Seq<ListModel>, owner: Seq<char>, w: int, i: int)
    requires
        0 <= i < lists.len(),
    ensures
        tombstoned_list_ids(lists.take(i + 1), owner, w) == if list_tombstone_reported(
            lists[i],
            owner,
            w,
        ) {
            tombstoned_list_ids(lists.take(i), owner, w).push(lists[i].id)
        } else {
            tombstoned_list_ids(lists.take(i), owner, w)
        },
{
    reveal(Seq::filter);
    let pred = |l: ListModel| list_tombstone_reported(l, owner, w);
    assert(lists.take(i + 1).drop_last() =~= lists.take(i));
    assert(lists.take(i + 1).last() == lists[i]);
    if pred(lists[i]) {
        assert(lists.take(i + 1).filter(pred) == lists.take(i).filter(pred).push(lists[i]));
        assert(tombstoned_list_ids(lists.take(i + 1), owner, w) =~= tombstoned_list_ids(
            lists.take(i),
            owner,
            w,
        ).push(lists[i].id));
    } else {
        assert(tombstoned_list_ids(lists.take(i + 1), owner, w) =~= tombstoned_list_ids(
            lists.take(i),
            owner,
            w,
        ));
    }
}

/// Extending the scanned prefix of task tombstones by one row.
pub proof fn lemma_tombstoned_task_ids_step(
    lists: Seq<ListModel>,
    tasks: Seq<TaskModel>,
    owner: Seq<char>,
    w: int,
    i: int,
)
    requires
        0 <= i < tasks.len(),
    ensures
        tombstoned_task_ids(lists, tasks.take(i + 1), owner, w) == if task_tombstone_reported(
            lists,
            tasks[i],
            owner,
            w,
        ) {
            tombstoned_task_ids(lists, tasks.take(i), owner, w).push(tasks[i].id)
        } else {
            tombstoned_task_ids(lists, tasks.take(i), owner, w)
        },
{
    reveal(Seq::filter);
    let pred = |t: TaskModel| task_tombstone_reported(lists, t, owner, w);
    assert(tasks.take(i + 1).drop_last() =~= tasks.take(i));
    assert(tasks.take(i + 1).last() == tasks[i]);
    if pred(tasks[i]) {
        assert(tasks.take(i + 1).filter(pred) == tasks.take(i).filter(pred).push(tasks[i]));
        assert(tombstoned_task_ids(lists, tasks.take(i + 1), owner, w) =~= tombstoned_task_ids(
            lists,
            tasks.take(i),
            owner,
            w,
        ).push(tasks[i].id));
    } else {
        assert(tombstoned_task_ids(lists, tasks.take(i + 1), owner, w) =~= tombstoned_task_ids(
            lists,
            tasks.take(i),
            owner,
            w,
        ));
    }
}

/// The response form of one list row, copied out of the store.
fn list_response_of(l: &TodoList) -> (r: ListResponse)
    ensures
        r@ == list_response_model(l@),
{
    ListResponse {
        id: l.id.clone(),
        user_id: l.user_id.clone(),
        name: l.name.clone(),
        color: l.color.clone(),
        created_at: l.created_at,
        updated_at: l.updated_at,
    }
}

/// The response form of one task row, copied out of the store.
fn task_response_of(t: &Task) -> (r: TaskResponse)
    ensures
        r@ == task_response_model(t@),
{
    TaskResponse {
        id: t.id.clone(),
        list_id: t.list_id.clone(),
        title: t.title.clone(),
        description: match &t.description {
            Some(d) => Some(d.clone()),
            None => None,
        },
        completed: t.completed,
        reminder: t.reminder,
        created_at: t.created_at,
        updated_at: t.updated_at,
    }
}

/// Computes everything one `Pull` delivers for `owner` at the watermark: a
/// pure read, exactly [`spec_pull`] of the store.
#[verifier::loop_isolation(false)]
pub fn pull_delta(store: &Store, owner: &String, watermark: Option<i64>) -> (r: PullDelta)
    requires
        store@.wf(),
    ensures
        r@ == spec_pull(store@, owner@, wm_model(watermark)),
{
    let ghost wmm = wm_model(watermark);

    let mut lists: Vec<ListResponse> = Vec::new();
    let mut i: usize = 0;
    proof {
        assert(store@.lists.take(0) =~= Seq::<ListModel>::empty());
        reveal(Seq::filter);
        assert(lists@.map_values(|x: ListResponse| x@) =~= visible_lists(
            store@.lists.take(0),
            owner@,
            wmm,
        ));
    }
    while i < store.lists.len()
        invariant
            i <= store.lists.len(),
            lists@.map_values(|x: ListResponse| x@) == visible_lists(
                store@.lists.take(i as int),
                owner@,
                wmm,
            ),
        decreases store.lists.len() - i,
    {
        proof {
            lemma_visible_lists_step(store@.lists, owner@, wmm, i as int);
        }
        let l = &store.lists[i];
        let past_mark = match watermark {
            Some(w) => l.updated_at > w,
            None => true,
        };
        if l.user_id == *owner && l.deleted_at.is_none() && past_mark {
            lists.push(list_response_of(l));
            proof {
                assert(lists@.map_values(|x: ListResponse| x@) =~= visible_lists(
                    store@.lists.take(i as int + 1),
                    owner@,
                    wmm,
                ));
            }
        }
        i += 1;
    }
    proof {
        assert(store@.lists.take(store.lists.len() as int) =~= store@.lists);
    }

    let mut tasks: Vec<TaskResponse> = Vec::new();
    let mut i: usize = 0;
    proof {
        assert(store@.tasks.take(0) =~= Seq::<TaskModel>::empty());
        reveal(Seq::filter);
        assert(tasks@.map_values(|x: TaskResponse| x@) =~= visible_tasks(
            store@.lists,
            store@.tasks.take(0),
            owner@,
            wmm,
        ));
    }
    while i < store.tasks.len()
        invariant
            i <= store.tasks.len(),
            tasks@.map_values(|x: TaskResponse| x@) == visible_tasks(
                store@.lists,
                store@.tasks.take(i as int),
                owner@,
                wmm,
            ),
        decreases store.tasks.len() - i,
    {
        proof {
            lemma_visible_tasks_step(store@.lists, store@.tasks, owner@, wmm, i as int);
        }
        let past_mark = match watermark {
            Some(w) => store.tasks[i].updated_at > w,
            None => true,
        };
        if store.tasks[i].deleted_at.is_none() && past_mark {
            let parent_live = list_owned_live_check(store, &store.tasks[i].list_id, owner);
            if parent_live {
                let t = task_response_of(&store.tasks[i]);
                tasks.push(t);
                proof {
                    assert(tasks@.map_values(|x: TaskResponse| x@) =~= visible_tasks(
                        store@.lists,
                        store@.tasks.take(i as int + 1),
                        owner@,
                        wmm,
                    ));
                }
            }
        }
        i += 1;
    }
    proof {
        assert(store@.tasks.take(store.tasks.len() as int) =~= store@.tasks);
    }

    let mut deleted_lists: Vec<String> = Vec::new();
    let mut deleted_tasks: Vec<String> = Vec::new();
    match watermark {
        Some(w) => {
            let mut i: usize = 0;
            proof {
                assert(store@.lists.take(0) =~= Seq::<ListModel>::empty());
                reveal(Seq::filter);
                assert(deleted_lists@.map_values(|s: String| s@) =~= tombstoned_list_ids(
                    store@.lists.take(0),
                    owner@,
                    w as int,
                ));
            }
            while i < store.lists.len()
                invariant
                    i <= store.lists.len(),
                    deleted_lists@.map_values(|s: String| s@) == tombstoned_list_ids(
                        store@.lists.take(i as int),
                        owner@,
                        w as int,
                    ),
                decreases store.lists.len() - i,
            {
                proof {
                    lemma_tombstoned_list_ids_step(store@.lists, owner@, w as int, i as int);
                }
                let tomb_past = match store.lists[i].deleted_at {
                    Some(d) => d > w,
                    None => false,
                };
                if store.lists[i].user_id == *owner && tomb_past {
                    deleted_lists.push(store.lists[i].id.clone());
                    proof {
                        assert(deleted_lists@.map_values(|s: String| s@) =~= tombstoned_list_ids(
                            store@.lists.take(i as int + 1),
                            owner@,
                            w as int,
                        ));
                    }
                }
                i += 1;
            }
            proof {
                assert(store@.lists.take(store.lists.len() as int) =~= store@.lists);
            }

            let mut i: usize = 0;
            proof {
                assert(store@.tasks.take(0) =~= Seq::<TaskModel>::empty());
                reveal(Seq::filter);
                assert(deleted_tasks@.map_values(|s: String| s@) =~= tombstoned_task_ids(
                    store@.lists,
                    store@.tasks.take(0),
                    owner@,
                    w as int,
                ));
            }
            while i < store.tasks.len()
                invariant
                    i <= store.tasks.len(),
                    deleted_tasks@.map_values(|s: String| s@) == tombstoned_task_ids(
                        store@.lists,
                        store@.tasks.take(i as int),
                        owner@,
                        w as int,
                    ),
                decreases store.tasks.len() - i,
            {
                proof {
                    lemma_tombstoned_task_ids_step(
                        store@.lists,
                        store@.tasks,
                        owner@,
                        w as int,
                        i as int,
                    );
                }
                let tomb_past = match store.tasks[i].deleted_at {
                    Some(d) => d > w,
                    None => false,
                };
                if tomb_past {
                    let owned = list_owned_check(store, &store.tasks[i].list_id, owner);
                    if owned {
                        deleted_tasks.push(store.tasks[i].id.clone());
                        proof {
                            assert(deleted_tasks@.map_values(|s: String| s@)
                                =~= tombstoned_task_ids(
                                store@.lists,
                                store@.tasks.take(i as int + 1),
                                owner@,
                                w as int,
                            ));
                        }
                    }
                }
                i += 1;
            }
            proof {
                assert(store@.tasks.take(store.tasks.len() as int) =~= store@.tasks);
            }
        },
        None => {
            proof {
                assert(deleted_lists@.map_values(|s: String| s@) =~= Seq::<Seq<char>>::empty());
                assert(deleted_tasks@.map_values(|s: String| s@) =~= Seq::<Seq<char>>::empty());
            }
        },
    }

    let r = PullDelta { lists, tasks, deleted_lists, deleted_tasks };
    proof {
        assert(r@ =~= spec_pull(store@, owner@, wmm));
    }
    r
}

/// `Pull` at a given server time: the delta past the watermark, stamped with
/// the time the caller may adopt as its next watermark. The time is taken
/// before the store is read, so a write landing while the response is built
/// can never fall between the stamp and the data.
pub fn pull(store: &Store, owner: &String, watermark: Option<i64>, now: i64) -> (r:
    SyncPullResponse)
    requires
        store@.wf(),
    ensures
        r.lists@.map_values(|x: ListResponse| x@) == spec_pull(
            store@,
            owner@,
            wm_model(watermark),
        ).lists,
        r.tasks@.map_values(|x: TaskResponse| x@) == spec_pull(
            store@,
            owner@,
            wm_model(watermark),
        ).tasks,
        r.deleted_lists@.map_values(|s: String| s@) == spec_pull(
            store@,
            owner@,
            wm_model(watermark),
        ).deleted_lists,
        r.deleted_tasks@.map_values(|s: String| s@) == spec_pull(
            store@,
            owner@,
            wm_model(watermark),
        ).deleted_tasks,
        renderable_micros(now as int) ==> r.server_time@ == rfc3339_text(now as int),
{
    let delta = pull_delta(store, owner, watermark);
    let server_time = server_time_text(now);
    SyncPullResponse {
        lists: delta.lists,
        tasks: delta.tasks,
        deleted_lists: delta.deleted_lists,
        deleted_tasks: delta.deleted_tasks,
        server_time,
    }
}

/// `FullSync` at a given server time: the caller's whole live snapshot — what
/// `Pull` without a watermark delivers — without tombstone lists.
pub fn full_sync(store: &Store, owner: &String, now: i64) -> (r: SyncFullResponse)
    requires
        store@.wf(),
    ensures
        r.lists@.map_values(|x: ListResponse| x@) == spec_pull(store@, owner@, None).lists,
        r.tasks@.map_values(|x: TaskResponse| x@) == spec_pull(store@, owner@, None).tasks,
        renderable_micros(now as int) ==> r.server_time@ == rfc3339_text(now as int),
{
    let delta = pull_delta(store, owner, None);
    let server_time = server_time_text(now);
    SyncFullResponse { lists: delta.lists, tasks: delta.tasks, server_time }
}

/// The boundary form of `Pull`: interprets the replayed watermark, rejecting
/// unparsable text as malformed before the store is read, and stamps the
/// current server time.
pub fn sync_pull(store: &Store, owner: &String, req: &SyncPullRequest) -> (r: Result<
    SyncPullResponse,
    SyncError,
>)
    requires
        store@.wf(),
    ensures
        match r {
            Ok(resp) => {
                exists|wm: Option<int>|
                    {
                        &&& #[trigger] watermark_reading(req.last_sync, wm)
                        &&& resp.lists@.map_values(|x: ListResponse| x@) == spec_pull(
                            store@,
                            owner@,
                            wm,
                        ).lists
                        &&& resp.tasks@.map_values(|x: TaskResponse| x@) == spec_pull(
                            store@,
                            owner@,
                            wm,
                        ).tasks
                        &&& resp.deleted_lists@.map_values(|s: String| s@) == spec_pull(
                            store@,
                            owner@,
                            wm,
                        ).deleted_lists
                        &&& resp.deleted_tasks@.map_values(|s: String| s@) == spec_pull(
                            store@,
                            owner@,
                            wm,
                        ).deleted_tasks
                    }
            },
            Err(e) => {
                &&& e == SyncError::BadRequest
                &&& req.last_sync matches Some(s) && rfc3339_micros(s@) is None
            },
        },
{
    let wm = match parse_watermark(&req.last_sync) {
        Ok(w) => w,
        Err(e) => {
            return Err(e);
        },
    };
    let now = now_micros();
    let resp = pull(store, owner, wm, now);
    proof {
        assert(watermark_reading(req.last_sync, wm_model(wm)));
    }
    Ok(resp)
}

/// How the watermark text of a request reads as an instant: absent text is
/// "no watermark", present text is its parsed value (an unparsable one was
/// rejected before this point).
pub open spec fn watermark_reading(last_sync: Option<String>, wm: Option<int>) -> bool {
    match last_sync {
        None => wm is None,
        Some(s) => wm is Some && rfc3339_micros(s@) == wm,
    }
}

/// The boundary form of `FullSync`: the whole live snapshot at the current
/// server time.
pub fn sync_full(store: &Store, owner: &String) -> (r: SyncFullResponse)
    requires
        store@.wf(),
    ensures
        r.lists@.map_values(|x: ListResponse| x@) == spec_pull(store@, owner@, None).lists,
        r.tasks@.map_values(|x: TaskResponse| x@) == spec_pull(store@, owner@, None).tasks,
{
    let now = now_micros();
    full_sync(store, owner, now)
}

} // verus!
