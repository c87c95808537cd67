//! Tests of the task record and its domain types.

use task_tracker::task::{Priority, Status, Task, Timestamp};

fn stamp(year: u16, month: u8, day: u8, hour: u8, minute: u8, second: u8) -> Timestamp {
    Timestamp { year, month, day, hour, minute, second }
}

#[test]
fn test_task_creation() {
    let task = Task::new(1, "Test task", Priority::High);
    assert_eq!(task.id, 1);
    assert_eq!(task.title, "Test task");
    assert_eq!(task.priority, Priority::High);
    assert_eq!(task.status, Status::Pending);
}

#[test]
fn test_task_completion() {
    let mut task = Task::new(1, "Test task", Priority::Medium);
    assert_eq!(task.status, Status::Pending);
    assert!(task.completed_at.is_none());

    task.complete();
    assert_eq!(task.status, Status::Completed);
    assert!(task.completed_at.is_some());
}

#[test]
fn test_priority_from_str() {
    assert_eq!("high".parse::<Priority>().unwrap(), Priority::High);
    assert_eq!("LOW".parse::<Priority>().unwrap(), Priority::Low);
    assert_eq!("u".parse::<Priority>().unwrap(), Priority::Urgent);
    assert!("unknown".parse::<Priority>().is_err());
}

#[test]
fn test_priority_codes_and_ranks() {
    assert_eq!(Priority::Low.as_str(), "LOW");
    assert_eq!(Priority::Medium.as_str(), "MED");
    assert_eq!(Priority::High.as_str(), "HIGH");
    assert_eq!(Priority::Urgent.as_str(), "URGENT");
    assert!(Priority::Urgent.rank() < Priority::High.rank());
    assert!(Priority::High.rank() < Priority::Medium.rank());
    assert!(Priority::Medium.rank() < Priority::Low.rank());
}

#[test]
fn test_status_codes_and_symbols() {
    assert_eq!(Status::Pending.as_str(), "PENDING");
    assert_eq!(Status::InProgress.as_str(), "IN_PROGRESS");
    assert_eq!(Status::Completed.as_str(), "COMPLETED");
    assert_eq!(Status::Cancelled.as_str(), "CANCELLED");
    assert_eq!(Status::Pending.symbol(), "⏳");
    assert_eq!(Status::Completed.symbol(), "✅");
}

#[test]
fn test_task_builders() {
    let due = stamp(2030, 12, 31, 23, 59, 59);
    let task = Task::new(0, "Plan", Priority::Low)
        .with_description("write the outline")
        .with_tags(vec!["work".to_string(), "writing".to_string()])
        .with_due_date(due);
    assert_eq!(task.description.as_deref(), Some("write the outline"));
    assert_eq!(task.tags, vec!["work".to_string(), "writing".to_string()]);
    assert_eq!(task.due_date, Some(due));
}

#[test]
fn test_start_and_cancel() {
    let mut task = Task::new(7, "Switchable", Priority::Medium);
    task.start();
    assert_eq!(task.status, Status::InProgress);
    task.cancel();
    assert_eq!(task.status, Status::Cancelled);
    // A recorded completion time is never cleared by later transitions.
    task.complete();
    let done_at = task.completed_at;
    assert!(done_at.is_some());
    task.start();
    assert_eq!(task.status, Status::InProgress);
    assert_eq!(task.completed_at, done_at);
}

#[test]
fn test_timestamp_order() {
    let a = stamp(2024, 5, 1, 0, 0, 0);
    let b = stamp(2024, 5, 1, 0, 0, 1);
    let c = stamp(2025, 1, 1, 0, 0, 0);
    assert!(a.le(&a));
    assert!(a.le(&b));
    assert!(!b.le(&a));
    assert!(b.le(&c));
}

#[test]
fn test_created_not_after_updated() {
    let task = Task::new(1, "Clock", Priority::Low);
    assert!(task.created_at.le(&task.updated_at));
    let mut task = task;
    task.complete();
    assert!(task.created_at.le(&task.updated_at));
}
