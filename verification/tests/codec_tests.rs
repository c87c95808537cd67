//! Tests of the stored document: exact text, round trips and rejection of
//! malformed input.

use task_tracker::store::{LoadError, TaskManager};
use task_tracker::task::{Priority, Status, Task, Timestamp};

fn stamp(year: u16, month: u8, day: u8, hour: u8, minute: u8, second: u8) -> Timestamp {
    Timestamp { year, month, day, hour, minute, second }
}

fn plain_task(id: u64, title: &str, priority: Priority) -> Task {
    Task {
        id,
        title: title.to_string(),
        description: None,
        priority,
        status: Status::Pending,
        tags: Vec::new(),
        created_at: stamp(2024, 1, 2, 3, 4, 5),
        updated_at: stamp(2024, 1, 2, 3, 4, 5),
        completed_at: None,
        due_date: None,
    }
}

#[test]
fn test_empty_store_document() {
    let manager = TaskManager::new();
    assert_eq!(manager.to_json(), "{}");
}

#[test]
fn test_exact_document_text() {
    let mut manager = TaskManager::new();
    manager.add_task(plain_task(0, "Alpha", Priority::Low));
    let expected = "{\"1\":{\"id\":1,\"title\":\"Alpha\",\"description\":null,\"priority\":\"Low\",\"status\":\"Pending\",\"tags\":[],\"created_at\":\"2024-01-02T03:04:05Z\",\"updated_at\":\"2024-01-02T03:04:05Z\",\"completed_at\":null,\"due_date\":null}}";
    assert_eq!(manager.to_json(), expected);
}

#[test]
fn test_round_trip_all_fields() {
    let mut manager = TaskManager::new();
    let mut rich = plain_task(0, "Quote \" backslash \\ newline \n tab \t 中文", Priority::Urgent);
    rich.description = Some("multi\r\nline \u{1} control".to_string());
    rich.tags = vec!["first tag".to_string(), "".to_string(), "first tag".to_string()];
    rich.status = Status::InProgress;
    rich.completed_at = Some(stamp(2025, 6, 30, 12, 0, 0));
    rich.due_date = Some(stamp(2026, 2, 28, 8, 15, 59));
    manager.add_task(rich);
    manager.add_task(plain_task(0, "Second", Priority::Medium));

    let stored = manager.to_json();
    let mut reloaded = TaskManager::new();
    reloaded.load(&stored).unwrap();

    assert_eq!(reloaded.len(), 2);
    let a = reloaded.get_task(1).unwrap();
    assert_eq!(a.title, "Quote \" backslash \\ newline \n tab \t 中文");
    assert_eq!(a.description.as_deref(), Some("multi\r\nline \u{1} control"));
    assert_eq!(
        a.tags,
        vec!["first tag".to_string(), "".to_string(), "first tag".to_string()]
    );
    assert_eq!(a.priority, Priority::Urgent);
    assert_eq!(a.status, Status::InProgress);
    assert_eq!(a.completed_at, Some(stamp(2025, 6, 30, 12, 0, 0)));
    assert_eq!(a.due_date, Some(stamp(2026, 2, 28, 8, 15, 59)));
    let b = reloaded.get_task(2).unwrap();
    assert_eq!(b.title, "Second");
    assert_eq!(b.priority, Priority::Medium);

    // The reloaded store stores back to the identical document.
    assert_eq!(reloaded.to_json(), stored);
}

#[test]
fn test_round_trip_keeps_next_id_past_highest() {
    let mut manager = TaskManager::new();
    manager.add_task(plain_task(0, "one", Priority::Low));
    manager.add_task(plain_task(0, "two", Priority::Low));
    let stored = manager.to_json();

    let mut reloaded = TaskManager::new();
    reloaded.load(&stored).unwrap();
    let next = reloaded.add_task(plain_task(0, "three", Priority::Low));
    assert_eq!(next, 3);
}

#[test]
fn test_load_rejects_malformed_text() {
    let mut manager = TaskManager::new();
    manager.add_task(plain_task(0, "kept", Priority::Low));

    for bad in [
        "",
        "not json at all",
        "{",
        "{}trailing",
        "[1,2,3]",
        "{\"1\":{\"id\":1}}",
        "{\"2\":{\"id\":1,\"title\":\"x\",\"description\":null,\"priority\":\"Low\",\"status\":\"Pending\",\"tags\":[],\"created_at\":\"2024-01-02T03:04:05Z\",\"updated_at\":\"2024-01-02T03:04:05Z\",\"completed_at\":null,\"due_date\":null}}",
    ] {
        assert_eq!(manager.load(bad), Err(LoadError::Malformed));
        // A failed load leaves the store untouched.
        assert_eq!(manager.len(), 1);
        assert_eq!(manager.get_task(1).unwrap().title, "kept");
    }
}

#[test]
fn test_load_rejects_bad_timestamps_and_order() {
    let mut manager = TaskManager::new();
    // Month 13 is out of range.
    let bad_month = "{\"1\":{\"id\":1,\"title\":\"x\",\"description\":null,\"priority\":\"Low\",\"status\":\"Pending\",\"tags\":[],\"created_at\":\"2024-13-02T03:04:05Z\",\"updated_at\":\"2024-01-02T03:04:05Z\",\"completed_at\":null,\"due_date\":null}}";
    assert_eq!(manager.load(bad_month), Err(LoadError::Malformed));

    // Identifiers must strictly increase along the document.
    let task = "{\"id\":ID,\"title\":\"x\",\"description\":null,\"priority\":\"Low\",\"status\":\"Pending\",\"tags\":[],\"created_at\":\"2024-01-02T03:04:05Z\",\"updated_at\":\"2024-01-02T03:04:05Z\",\"completed_at\":null,\"due_date\":null}";
    let doc = format!(
        "{{\"2\":{},\"1\":{}}}",
        task.replace("ID", "2"),
        task.replace("ID", "1")
    );
    assert_eq!(manager.load(&doc), Err(LoadError::Malformed));
}

#[test]
fn test_load_empty_document() {
    let mut manager = TaskManager::new();
    manager.add_task(plain_task(0, "gone after load", Priority::Low));
    manager.load("{}").unwrap();
    assert_eq!(manager.len(), 0);
    let id = manager.add_task(plain_task(0, "fresh", Priority::Low));
    assert_eq!(id, 1);
}
