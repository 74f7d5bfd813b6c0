use todo_sync::push::{PushBatch, push};
use todo_sync::pull::{full_sync, pull, pull_delta};
use todo_sync::reconcile::{ListUpsert, TaskUpsert, apply_delete_list, apply_delete_task};
use todo_sync::store::Store;

fn owner_a() -> String {
    "user-a".to_string()
}

fn owner_b() -> String {
    "user-b".to_string()
}

fn list_item(id: &str, name: &str, created_at: i64) -> ListUpsert {
    ListUpsert {
        id: id.to_string(),
        name: name.to_string(),
        color: "#3B82F6".to_string(),
        created_at,
    }
}

fn task_item(id: &str, list_id: &str, title: &str, created_at: i64) -> TaskUpsert {
    TaskUpsert {
        id: id.to_string(),
        list_id: list_id.to_string(),
        title: title.to_string(),
        description: None,
        completed: false,
        reminder: None,
        created_at,
    }
}

fn empty_batch() -> PushBatch {
    PushBatch { lists: vec![], tasks: vec![], deleted_lists: vec![], deleted_tasks: vec![] }
}

#[test]
fn push_creates_list_and_task() {
    let mut store = Store::new();
    let mut batch = empty_batch();
    batch.lists.push(list_item("L1", "Home", 100));
    batch.tasks.push(task_item("T1", "L1", "buy milk", 100));
    let counts = push(&mut store, &owner_a(), &batch, 1000).unwrap();
    assert_eq!(counts.synced_lists, 1);
    assert_eq!(counts.synced_tasks, 1);
    assert_eq!(counts.deleted_lists, 0);
    assert_eq!(counts.deleted_tasks, 0);
    assert_eq!(store.lists.len(), 1);
    assert_eq!(store.tasks.len(), 1);
    assert_eq!(store.lists[0].id, "L1");
    assert_eq!(store.lists[0].user_id, "user-a");
    assert_eq!(store.lists[0].updated_at, 1000);
    assert_eq!(store.lists[0].created_at, 100);
    assert_eq!(store.tasks[0].list_id, "L1");
}

#[test]
fn push_batch_replay_is_idempotent() {
    // Build a store with history, then replay one mixed batch twice at the
    // same server instant: the second application must change nothing.
    let mut store = Store::new();
    let mut setup = empty_batch();
    setup.lists.push(list_item("L1", "Home", 100));
    setup.lists.push(list_item("L2", "Work", 100));
    setup.tasks.push(task_item("T1", "L1", "one", 100));
    setup.tasks.push(task_item("T2", "L2", "two", 100));
    push(&mut store, &owner_a(), &setup, 1000).unwrap();

    let mut batch = empty_batch();
    batch.deleted_lists.push("L1".to_string());
    batch.deleted_tasks.push("T2".to_string());
    batch.lists.push(list_item("L1", "Home again", 150));
    batch.tasks.push(task_item("T3", "L1", "three", 150));

    push(&mut store, &owner_a(), &batch, 2000).unwrap();
    let after_once = (store.lists.clone(), store.tasks.clone());
    push(&mut store, &owner_a(), &batch, 2000).unwrap();
    assert_eq!(store.lists, after_once.0);
    assert_eq!(store.tasks, after_once.1);
}

#[test]
fn delete_missing_or_foreign_or_deleted_is_noop() {
    let mut store = Store::new();
    let mut setup = empty_batch();
    setup.lists.push(list_item("L1", "Home", 100));
    setup.tasks.push(task_item("T1", "L1", "one", 100));
    push(&mut store, &owner_a(), &setup, 1000).unwrap();

    let before = Store {
        lists: store.lists.clone(),
        tasks: store.tasks.clone(),
        audit: store.audit.clone(),
    };

    // Nonexistent identifiers.
    apply_delete_list(&mut store, &owner_a(), &"ghost".to_string(), 2000);
    apply_delete_task(&mut store, &owner_a(), &"ghost".to_string(), 2000);
    // Foreign owner.
    apply_delete_list(&mut store, &owner_b(), &"L1".to_string(), 2000);
    apply_delete_task(&mut store, &owner_b(), &"T1".to_string(), 2000);
    assert_eq!(store, before);

    // An effective delete, replayed: the replay changes nothing, not even
    // the tombstone instants.
    apply_delete_list(&mut store, &owner_a(), &"L1".to_string(), 3000);
    let after_delete = Store {
        lists: store.lists.clone(),
        tasks: store.tasks.clone(),
        audit: store.audit.clone(),
    };
    apply_delete_list(&mut store, &owner_a(), &"L1".to_string(), 4000);
    assert_eq!(store, after_delete);
    assert_eq!(store.lists[0].deleted_at, Some(3000));
    assert_eq!(store.tasks[0].deleted_at, Some(3000));
}

#[test]
fn cascade_hides_tasks_from_pull_and_full_sync() {
    let mut store = Store::new();
    let mut setup = empty_batch();
    setup.lists.push(list_item("L1", "Home", 100));
    setup.tasks.push(task_item("T1", "L1", "one", 100));
    setup.tasks.push(task_item("T2", "L1", "two", 100));
    push(&mut store, &owner_a(), &setup, 1000).unwrap();

    let mut del = empty_batch();
    del.deleted_lists.push("L1".to_string());
    push(&mut store, &owner_a(), &del, 2000).unwrap();

    let snap = full_sync(&store, &owner_a(), 3000);
    assert!(snap.lists.is_empty());
    assert!(snap.tasks.is_empty());

    // Only the list's tombstone was written by the client, yet the cascade
    // reports the tasks' removals too.
    let delta = pull_delta(&store, &owner_a(), Some(1500));
    assert!(delta.lists.is_empty());
    assert!(delta.tasks.is_empty());
    assert_eq!(delta.deleted_lists, vec!["L1".to_string()]);
    let mut gone = delta.deleted_tasks.clone();
    gone.sort();
    assert_eq!(gone, vec!["T1".to_string(), "T2".to_string()]);
}

#[test]
fn undelete_on_touch_revives_tombstoned_row() {
    let mut store = Store::new();
    let mut setup = empty_batch();
    setup.lists.push(list_item("L1", "Home", 100));
    push(&mut store, &owner_a(), &setup, 1000).unwrap();

    let mut del = empty_batch();
    del.deleted_lists.push("L1".to_string());
    push(&mut store, &owner_a(), &del, 2000).unwrap();
    assert_eq!(store.lists[0].deleted_at, Some(2000));

    let mut touch = empty_batch();
    touch.lists.push(list_item("L1", "Home revived", 100));
    push(&mut store, &owner_a(), &touch, 3000).unwrap();
    assert_eq!(store.lists.len(), 1);
    assert_eq!(store.lists[0].deleted_at, None);
    assert_eq!(store.lists[0].updated_at, 3000);
    assert_eq!(store.lists[0].name, "Home revived");

    let snap = full_sync(&store, &owner_a(), 4000);
    assert_eq!(snap.lists.len(), 1);
    assert_eq!(snap.lists[0].id, "L1");
}

#[test]
fn watermark_is_strictly_greater_than() {
    let mut store = Store::new();
    let mut setup = empty_batch();
    setup.lists.push(list_item("L1", "Home", 100));
    push(&mut store, &owner_a(), &setup, 1000).unwrap();

    // A row stamped exactly at the watermark is not delivered again.
    let at_mark = pull_delta(&store, &owner_a(), Some(1000));
    assert!(at_mark.lists.is_empty());
    let before_mark = pull_delta(&store, &owner_a(), Some(999));
    assert_eq!(before_mark.lists.len(), 1);
}

#[test]
fn pull_with_later_watermark_is_subset() {
    let mut store = Store::new();
    let mut b1 = empty_batch();
    b1.lists.push(list_item("L1", "Home", 100));
    push(&mut store, &owner_a(), &b1, 1000).unwrap();
    let mut b2 = empty_batch();
    b2.lists.push(list_item("L2", "Work", 100));
    b2.deleted_lists.push("L1".to_string());
    push(&mut store, &owner_a(), &b2, 2000).unwrap();

    let early = pull_delta(&store, &owner_a(), Some(500));
    let late = pull_delta(&store, &owner_a(), Some(1500));
    for l in &late.lists {
        assert!(early.lists.contains(l));
    }
    for t in &late.tasks {
        assert!(early.tasks.contains(t));
    }
    for d in &late.deleted_lists {
        assert!(early.deleted_lists.contains(d));
    }
    for d in &late.deleted_tasks {
        assert!(early.deleted_tasks.contains(d));
    }
    // And the early pull genuinely sees more here.
    assert_eq!(early.lists.len(), 1);
    assert_eq!(late.lists.len(), 1);
    assert_eq!(early.deleted_lists.len(), 1);
    assert_eq!(late.deleted_lists.len(), 1);
}

#[test]
fn convergence_across_two_devices() {
    // Device A pushes one list; device B, with no prior knowledge, gets it
    // whole from FullSync; A then deletes it and B's incremental Pull reports
    // exactly the tombstone.
    let mut store = Store::new();
    let mut b1 = empty_batch();
    b1.lists.push(list_item("L1", "Home", 100));
    push(&mut store, &owner_a(), &b1, 1000).unwrap();

    let snap = full_sync(&store, &owner_a(), 1500);
    assert_eq!(snap.lists.len(), 1);
    assert_eq!(snap.lists[0].id, "L1");
    assert_eq!(snap.lists[0].name, "Home");
    let device_b_watermark: i64 = 1500;

    let mut b2 = empty_batch();
    b2.deleted_lists.push("L1".to_string());
    push(&mut store, &owner_a(), &b2, 2000).unwrap();

    let delta = pull(&store, &owner_a(), Some(device_b_watermark), 2500);
    assert!(delta.lists.is_empty());
    assert_eq!(delta.deleted_lists, vec!["L1".to_string()]);
}

#[test]
fn ownership_isolation_rejects_foreign_list() {
    let mut store = Store::new();
    let mut b1 = empty_batch();
    b1.lists.push(list_item("L1", "Home", 100));
    push(&mut store, &owner_a(), &b1, 1000).unwrap();
    let before = Store {
        lists: store.lists.clone(),
        tasks: store.tasks.clone(),
        audit: store.audit.clone(),
    };

    let mut intruder = empty_batch();
    intruder.tasks.push(task_item("T1", "L1", "sneak", 100));
    let r = push(&mut store, &owner_b(), &intruder, 2000);
    assert_eq!(r, Err(todo_sync::errors::SyncError::NotFound));
    assert_eq!(store, before);

    // The rejection is uniform: a wholly unknown list reads the same as a
    // foreign one.
    let mut lost = empty_batch();
    lost.tasks.push(task_item("T2", "nowhere", "sneak", 100));
    let r2 = push(&mut store, &owner_b(), &lost, 2000);
    assert_eq!(r2, Err(todo_sync::errors::SyncError::NotFound));
    assert_eq!(store, before);
}

#[test]
fn atomic_batch_writes_nothing_on_one_bad_task() {
    let mut store = Store::new();
    let mut b1 = empty_batch();
    b1.lists.push(list_item("LA", "A's list", 100));
    push(&mut store, &owner_a(), &b1, 1000).unwrap();
    let mut b2 = empty_batch();
    b2.lists.push(list_item("LB", "B's list", 100));
    push(&mut store, &owner_b(), &b2, 1000).unwrap();
    let before = Store {
        lists: store.lists.clone(),
        tasks: store.tasks.clone(),
        audit: store.audit.clone(),
    };

    // Nine valid tasks and one that references a foreign list: nothing may
    // be written, not even the nine.
    let mut batch = empty_batch();
    for i in 0..9 {
        batch.tasks.push(task_item(&format!("T{}", i), "LB", "fine", 100));
    }
    batch.tasks.push(task_item("T9", "LA", "foreign", 100));
    let r = push(&mut store, &owner_b(), &batch, 2000);
    assert_eq!(r, Err(todo_sync::errors::SyncError::NotFound));
    assert_eq!(store, before);
}

#[test]
fn delete_then_recreate_in_one_batch_is_clean() {
    // Deletes run before upserts, so a batch that deletes a list and
    // recreates an entity under it observes a clean create.
    let mut store = Store::new();
    let mut setup = empty_batch();
    setup.lists.push(list_item("L1", "Home", 100));
    setup.tasks.push(task_item("T1", "L1", "old", 100));
    push(&mut store, &owner_a(), &setup, 1000).unwrap();

    let mut batch = empty_batch();
    batch.deleted_lists.push("L1".to_string());
    batch.lists.push(list_item("L1", "Fresh", 200));
    batch.tasks.push(task_item("T2", "L1", "new", 200));
    push(&mut store, &owner_a(), &batch, 2000).unwrap();

    let snap = full_sync(&store, &owner_a(), 3000);
    assert_eq!(snap.lists.len(), 1);
    assert_eq!(snap.lists[0].name, "Fresh");
    // The old task stays tombstoned; only the recreated one is live.
    assert_eq!(snap.tasks.len(), 1);
    assert_eq!(snap.tasks[0].id, "T2");
}

#[test]
fn pull_without_watermark_returns_full_snapshot_and_no_tombstones() {
    let mut store = Store::new();
    let mut setup = empty_batch();
    setup.lists.push(list_item("L1", "Home", 100));
    setup.lists.push(list_item("L2", "Work", 100));
    setup.deleted_lists.push("ghost".to_string());
    push(&mut store, &owner_a(), &setup, 1000).unwrap();
    let mut del = empty_batch();
    del.deleted_lists.push("L2".to_string());
    push(&mut store, &owner_a(), &del, 2000).unwrap();

    let delta = pull_delta(&store, &owner_a(), None);
    assert_eq!(delta.lists.len(), 1);
    assert_eq!(delta.lists[0].id, "L1");
    // Even though a tombstone exists, a bootstrap pull reports none.
    assert!(delta.deleted_lists.is_empty());
    assert!(delta.deleted_tasks.is_empty());
}

#[test]
fn pull_scopes_to_owner() {
    let mut store = Store::new();
    let mut b1 = empty_batch();
    b1.lists.push(list_item("LA", "A's", 100));
    b1.tasks.push(task_item("TA", "LA", "a", 100));
    push(&mut store, &owner_a(), &b1, 1000).unwrap();
    let mut b2 = empty_batch();
    b2.lists.push(list_item("LB", "B's", 100));
    push(&mut store, &owner_b(), &b2, 1000).unwrap();

    let a = pull_delta(&store, &owner_a(), None);
    assert_eq!(a.lists.len(), 1);
    assert_eq!(a.lists[0].id, "LA");
    assert_eq!(a.tasks.len(), 1);
    let b = pull_delta(&store, &owner_b(), None);
    assert_eq!(b.lists.len(), 1);
    assert_eq!(b.lists[0].id, "LB");
    assert!(b.tasks.is_empty());
}

#[test]
fn push_response_counts_and_server_time() {
    let mut store = Store::new();
    let req = todo_sync::push::SyncPushRequest {
        lists: vec![todo_sync::push::SyncListItem {
            id: Some("L1".to_string()),
            name: "  Home  ".to_string(),
            color: None,
            created_at: None,
            updated_at: None,
        }],
        tasks: vec![],
        deleted_lists: vec!["ghost".to_string()],
        deleted_tasks: vec![],
    };
    let resp = todo_sync::push::sync_push(&mut store, &owner_a(), &req).unwrap();
    assert_eq!(resp.synced_lists, 1);
    assert_eq!(resp.synced_tasks, 0);
    assert_eq!(resp.deleted_lists, 1);
    assert_eq!(resp.deleted_tasks, 0);
    assert!(!resp.server_time.is_empty());
    // The name was trimmed and the default color applied on the way in.
    assert_eq!(store.lists[0].name, "Home");
    assert_eq!(store.lists[0].color, "#3B82F6");
}
