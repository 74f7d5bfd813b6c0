use todo_sync::errors::SyncError;
use todo_sync::store::{AuditAction, EntityKind};
use todo_sync::lists::{
    CreateListRequest, UpdateListRequest, create_list, delete_list, get_list, get_lists,
    update_list,
};
use todo_sync::store::Store;
use todo_sync::tasks::{
    CreateTaskRequest, UpdateTaskRequest, create_task, delete_task, get_all_tasks, get_task,
    get_tasks_by_list, update_task,
};

fn owner() -> String {
    "user-1".to_string()
}

fn other() -> String {
    "user-2".to_string()
}

fn new_list_req(id: &str, name: &str) -> CreateListRequest {
    CreateListRequest {
        id: Some(id.to_string()),
        name: name.to_string(),
        color: None,
        created_at: None,
    }
}

fn new_task_req(id: &str, list_id: &str, title: &str) -> CreateTaskRequest {
    CreateTaskRequest {
        id: Some(id.to_string()),
        list_id: list_id.to_string(),
        title: title.to_string(),
        description: None,
        completed: None,
        reminder: None,
        created_at: None,
    }
}

#[test]
fn create_list_applies_defaults_and_trims() {
    let mut store = Store::new();
    let resp = create_list(&mut store, &owner(), &new_list_req("L1", "  Home  "), 1000).unwrap();
    assert_eq!(resp.id, "L1");
    assert_eq!(resp.name, "Home");
    assert_eq!(resp.color, "#3B82F6");
    assert_eq!(resp.user_id, "user-1");
    assert_eq!(store.lists.len(), 1);
}

#[test]
fn create_list_rejects_blank_name() {
    let mut store = Store::new();
    let r = create_list(&mut store, &owner(), &new_list_req("L1", "   "), 1000);
    assert_eq!(r, Err(SyncError::BadRequest));
    assert!(store.lists.is_empty());
}

#[test]
fn create_list_with_known_id_updates() {
    let mut store = Store::new();
    create_list(&mut store, &owner(), &new_list_req("L1", "Home"), 1000).unwrap();
    create_list(&mut store, &owner(), &new_list_req("L1", "Renamed"), 2000).unwrap();
    assert_eq!(store.lists.len(), 1);
    assert_eq!(store.lists[0].name, "Renamed");
    assert_eq!(store.lists[0].updated_at, 2000);
}

#[test]
fn create_list_without_id_draws_fresh_identifier() {
    let mut store = Store::new();
    let req = CreateListRequest {
        id: None,
        name: "Home".to_string(),
        color: None,
        created_at: None,
    };
    let a = create_list(&mut store, &owner(), &req, 1000).unwrap();
    let b = create_list(&mut store, &owner(), &req, 1000).unwrap();
    assert_eq!(a.id.len(), 36);
    assert_eq!(b.id.len(), 36);
    assert_ne!(a.id, b.id);
    assert_eq!(store.lists.len(), 2);
}

#[test]
fn create_list_parses_client_created_at() {
    let mut store = Store::new();
    let req = CreateListRequest {
        id: Some("L1".to_string()),
        name: "Home".to_string(),
        color: None,
        created_at: Some("2024-01-01T00:00:00Z".to_string()),
    };
    create_list(&mut store, &owner(), &req, 5000).unwrap();
    assert_eq!(store.lists[0].created_at, 1704067200000000);
    assert_eq!(store.lists[0].updated_at, 5000);
}

#[test]
fn get_list_scopes_and_hides_deleted() {
    let mut store = Store::new();
    create_list(&mut store, &owner(), &new_list_req("L1", "Home"), 1000).unwrap();
    assert!(get_list(&store, &owner(), &"L1".to_string()).is_ok());
    assert_eq!(get_list(&store, &other(), &"L1".to_string()), Err(SyncError::NotFound));
    delete_list(&mut store, &owner(), &"L1".to_string(), 2000);
    assert_eq!(get_list(&store, &owner(), &"L1".to_string()), Err(SyncError::NotFound));
}

#[test]
fn get_lists_returns_live_owned_only() {
    let mut store = Store::new();
    create_list(&mut store, &owner(), &new_list_req("L1", "Home"), 1000).unwrap();
    create_list(&mut store, &owner(), &new_list_req("L2", "Work"), 1000).unwrap();
    create_list(&mut store, &other(), &new_list_req("L3", "Theirs"), 1000).unwrap();
    delete_list(&mut store, &owner(), &"L2".to_string(), 2000);
    let lists = get_lists(&store, &owner());
    assert_eq!(lists.len(), 1);
    assert_eq!(lists[0].id, "L1");
}

#[test]
fn update_list_edits_fields_and_stamps() {
    let mut store = Store::new();
    create_list(&mut store, &owner(), &new_list_req("L1", "Home"), 1000).unwrap();
    let req = UpdateListRequest { name: Some("  New name ".to_string()), color: None };
    let resp = update_list(&mut store, &owner(), &"L1".to_string(), &req, 2000).unwrap();
    assert_eq!(resp.name, "New name");
    assert_eq!(resp.updated_at, 2000);
    assert_eq!(store.lists[0].name, "New name");
    assert_eq!(store.lists[0].color, "#3B82F6");
}

#[test]
fn update_list_with_nothing_to_change_is_malformed() {
    let mut store = Store::new();
    create_list(&mut store, &owner(), &new_list_req("L1", "Home"), 1000).unwrap();
    let blank = UpdateListRequest { name: Some("   ".to_string()), color: None };
    assert_eq!(
        update_list(&mut store, &owner(), &"L1".to_string(), &blank, 2000),
        Err(SyncError::BadRequest)
    );
    let nothing = UpdateListRequest { name: None, color: None };
    assert_eq!(
        update_list(&mut store, &owner(), &"L1".to_string(), &nothing, 2000),
        Err(SyncError::BadRequest)
    );
    assert_eq!(store.lists[0].updated_at, 1000);
}

#[test]
fn update_list_foreign_or_missing_is_not_found() {
    let mut store = Store::new();
    create_list(&mut store, &owner(), &new_list_req("L1", "Home"), 1000).unwrap();
    let req = UpdateListRequest { name: None, color: Some("#FFFFFF".to_string()) };
    assert_eq!(
        update_list(&mut store, &other(), &"L1".to_string(), &req, 2000),
        Err(SyncError::NotFound)
    );
    assert_eq!(
        update_list(&mut store, &owner(), &"ghost".to_string(), &req, 2000),
        Err(SyncError::NotFound)
    );
}

#[test]
fn create_task_checks_list_and_validates() {
    let mut store = Store::new();
    create_list(&mut store, &owner(), &new_list_req("L1", "Home"), 1000).unwrap();

    let r = create_task(&mut store, &owner(), &new_task_req("T1", "", "title"), 2000);
    assert_eq!(r, Err(SyncError::BadRequest));
    let r = create_task(&mut store, &owner(), &new_task_req("T1", "L1", "  "), 2000);
    assert_eq!(r, Err(SyncError::BadRequest));
    let r = create_task(&mut store, &other(), &new_task_req("T1", "L1", "steal"), 2000);
    assert_eq!(r, Err(SyncError::NotFound));
    assert!(store.tasks.is_empty());

    let resp = create_task(&mut store, &owner(), &new_task_req("T1", "L1", " buy milk "), 2000)
        .unwrap();
    assert_eq!(resp.title, "buy milk");
    assert_eq!(resp.list_id, "L1");
    assert!(!resp.completed);
    assert_eq!(store.tasks.len(), 1);
}

#[test]
fn create_task_parses_reminder() {
    let mut store = Store::new();
    create_list(&mut store, &owner(), &new_list_req("L1", "Home"), 1000).unwrap();
    let mut req = new_task_req("T1", "L1", "call");
    req.reminder = Some("2024-01-01T00:00:01Z".to_string());
    create_task(&mut store, &owner(), &req, 2000).unwrap();
    assert_eq!(store.tasks[0].reminder, Some(1704067201000000));

    let mut req2 = new_task_req("T2", "L1", "call");
    req2.reminder = Some("not a time".to_string());
    create_task(&mut store, &owner(), &req2, 2000).unwrap();
    assert_eq!(store.tasks[1].reminder, None);
}

#[test]
fn get_task_and_get_tasks_by_list_scope() {
    let mut store = Store::new();
    create_list(&mut store, &owner(), &new_list_req("L1", "Home"), 1000).unwrap();
    create_task(&mut store, &owner(), &new_task_req("T1", "L1", "one"), 1000).unwrap();
    create_task(&mut store, &owner(), &new_task_req("T2", "L1", "two"), 1000).unwrap();
    delete_task(&mut store, &owner(), &"T2".to_string(), 1500);

    assert!(get_task(&store, &owner(), &"T1".to_string()).is_ok());
    assert_eq!(get_task(&store, &other(), &"T1".to_string()), Err(SyncError::NotFound));
    assert_eq!(get_task(&store, &owner(), &"T2".to_string()), Err(SyncError::NotFound));

    let ts = get_tasks_by_list(&store, &owner(), &"L1".to_string()).unwrap();
    assert_eq!(ts.len(), 1);
    assert_eq!(ts[0].id, "T1");
    assert_eq!(
        get_tasks_by_list(&store, &other(), &"L1".to_string()),
        Err(SyncError::NotFound)
    );

    let all = get_all_tasks(&store, &owner());
    assert_eq!(all.len(), 1);

    // A deleted list hides its tasks from every read path.
    delete_list(&mut store, &owner(), &"L1".to_string(), 2000);
    assert_eq!(get_task(&store, &owner(), &"T1".to_string()), Err(SyncError::NotFound));
    assert_eq!(
        get_tasks_by_list(&store, &owner(), &"L1".to_string()),
        Err(SyncError::NotFound)
    );
    assert!(get_all_tasks(&store, &owner()).is_empty());
}

#[test]
fn update_task_edits_fields() {
    let mut store = Store::new();
    create_list(&mut store, &owner(), &new_list_req("L1", "Home"), 1000).unwrap();
    let mut req = new_task_req("T1", "L1", "one");
    req.description = Some("details".to_string());
    create_task(&mut store, &owner(), &req, 1000).unwrap();

    let edit = UpdateTaskRequest {
        title: Some(" renamed ".to_string()),
        description: Some("".to_string()),
        completed: Some(true),
        reminder: Some("2024-01-01T00:00:00Z".to_string()),
    };
    let resp = update_task(&mut store, &owner(), &"T1".to_string(), &edit, 2000).unwrap();
    assert_eq!(resp.title, "renamed");
    // An empty description clears the field.
    assert_eq!(resp.description, None);
    assert!(resp.completed);
    assert_eq!(resp.reminder, Some(1704067200000000));
    assert_eq!(resp.updated_at, 2000);
    assert_eq!(store.tasks[0].title, "renamed");

    // An empty reminder clears it; absent fields keep their values.
    let clear = UpdateTaskRequest {
        title: None,
        description: None,
        completed: None,
        reminder: Some("".to_string()),
    };
    let resp2 = update_task(&mut store, &owner(), &"T1".to_string(), &clear, 3000).unwrap();
    assert_eq!(resp2.reminder, None);
    assert_eq!(resp2.title, "renamed");
    assert!(resp2.completed);
}

#[test]
fn update_task_foreign_or_missing_is_not_found() {
    let mut store = Store::new();
    create_list(&mut store, &owner(), &new_list_req("L1", "Home"), 1000).unwrap();
    create_task(&mut store, &owner(), &new_task_req("T1", "L1", "one"), 1000).unwrap();
    let edit = UpdateTaskRequest {
        title: Some("x".to_string()),
        description: None,
        completed: None,
        reminder: None,
    };
    assert_eq!(
        update_task(&mut store, &other(), &"T1".to_string(), &edit, 2000),
        Err(SyncError::NotFound)
    );
    assert_eq!(
        update_task(&mut store, &owner(), &"ghost".to_string(), &edit, 2000),
        Err(SyncError::NotFound)
    );
    assert_eq!(store.tasks[0].title, "one");
}

#[test]
fn delete_task_is_scoped_and_idempotent() {
    let mut store = Store::new();
    create_list(&mut store, &owner(), &new_list_req("L1", "Home"), 1000).unwrap();
    create_task(&mut store, &owner(), &new_task_req("T1", "L1", "one"), 1000).unwrap();

    delete_task(&mut store, &other(), &"T1".to_string(), 2000);
    assert_eq!(store.tasks[0].deleted_at, None);

    delete_task(&mut store, &owner(), &"T1".to_string(), 2000);
    assert_eq!(store.tasks[0].deleted_at, Some(2000));
    delete_task(&mut store, &owner(), &"T1".to_string(), 3000);
    assert_eq!(store.tasks[0].deleted_at, Some(2000));
}

#[test]
fn audit_records_effective_steps() {
    let mut store = Store::new();
    create_list(&mut store, &owner(), &new_list_req("L1", "Home"), 1000).unwrap();
    create_task(&mut store, &owner(), &new_task_req("T1", "L1", "one"), 1100).unwrap();
    delete_task(&mut store, &owner(), &"T1".to_string(), 1200);
    // A no-op delete leaves no record either.
    delete_task(&mut store, &owner(), &"T1".to_string(), 1300);

    assert_eq!(store.audit.len(), 3);
    assert_eq!(store.audit[0].entity_kind, EntityKind::List);
    assert_eq!(store.audit[0].action, AuditAction::Create);
    assert_eq!(store.audit[1].entity_kind, EntityKind::Task);
    assert_eq!(store.audit[1].action, AuditAction::Create);
    assert_eq!(store.audit[2].action, AuditAction::Delete);
    assert_eq!(store.audit[2].entity_id, "T1");
    assert_eq!(store.audit[2].at, 1200);
}
