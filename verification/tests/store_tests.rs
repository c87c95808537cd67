//! Tests of the task store: insertion, lookup, deletion, listing, search
//! and statistics.

use task_tracker::store::TaskManager;
use task_tracker::task::{Priority, Status, Task};

fn add(manager: &mut TaskManager, title: &str, priority: Priority) -> u64 {
    manager.add_task(Task::new(0, title, priority))
}

#[test]
fn test_ids_increase_and_never_repeat() {
    let mut manager = TaskManager::new();
    let a = add(&mut manager, "first", Priority::Low);
    let b = add(&mut manager, "second", Priority::Low);
    let c = add(&mut manager, "third", Priority::Low);
    assert!(a < b && b < c);

    manager.delete_task(b).unwrap();
    let d = add(&mut manager, "fourth", Priority::Low);
    assert!(d > c);
    assert_eq!(vec![a, b, c, d], vec![1, 2, 3, 4]);
}

#[test]
fn test_get_task() {
    let mut manager = TaskManager::new();
    let id = add(&mut manager, "look me up", Priority::Medium);
    assert_eq!(manager.get_task(id).unwrap().title, "look me up");
    assert!(manager.get_task(id + 1).is_none());
}

#[test]
fn test_delete_semantics() {
    let mut manager = TaskManager::new();
    let a = add(&mut manager, "keep", Priority::Low);
    let b = add(&mut manager, "drop", Priority::High);
    assert_eq!(manager.len(), 2);

    let removed = manager.delete_task(b).unwrap();
    assert_eq!(removed.title, "drop");
    assert_eq!(manager.len(), 1);
    assert!(manager.get_task(b).is_none());
    assert!(manager.list_tasks(None).iter().all(|t| t.id != b));

    let err = manager.delete_task(b).unwrap_err();
    assert_eq!(err.id, b);
    assert_eq!(err.message(), "Task not found");
    assert_eq!(manager.len(), 1);
    assert!(manager.get_task(a).is_some());
}

#[test]
fn test_list_filter_exact_subset() {
    let mut manager = TaskManager::new();
    let a = add(&mut manager, "one", Priority::Low);
    let b = add(&mut manager, "two", Priority::High);
    let c = add(&mut manager, "three", Priority::Low);
    manager.complete_task(b).unwrap();
    manager.complete_task(c).unwrap();

    let completed = manager.list_tasks(Some(Status::Completed));
    let mut ids: Vec<u64> = completed.iter().map(|t| t.id).collect();
    ids.sort();
    assert_eq!(ids, vec![b, c]);
    assert!(completed.iter().all(|t| t.status == Status::Completed));

    let pending = manager.list_tasks(Some(Status::Pending));
    assert_eq!(pending.len(), 1);
    assert_eq!(pending[0].id, a);
}

#[test]
fn test_list_sort_order() {
    let mut manager = TaskManager::new();
    add(&mut manager, "low early", Priority::Low);
    add(&mut manager, "urgent", Priority::Urgent);
    add(&mut manager, "medium", Priority::Medium);
    add(&mut manager, "high", Priority::High);
    add(&mut manager, "low late", Priority::Low);

    let listed = manager.list_tasks(None);
    let ranks: Vec<u8> = listed.iter().map(|t| t.priority.rank()).collect();
    let mut sorted = ranks.clone();
    sorted.sort();
    assert_eq!(ranks, sorted);
    assert_eq!(listed[0].title, "urgent");
    // Within one band the more recently created task comes first; these two
    // share the creation second more often than not, so only the band
    // ordering is asserted here.
    assert_eq!(listed.len(), 5);
}

#[test]
fn test_search_case_insensitive() {
    let mut manager = TaskManager::new();
    let a = add(&mut manager, "Fix Rust bug", Priority::High);
    let b = manager.add_task(
        Task::new(0, "Write docs", Priority::Low).with_description("about RUST macros"),
    );
    let c = manager.add_task(
        Task::new(0, "Chores", Priority::Low).with_tags(vec!["rustic".to_string()]),
    );
    let d = add(&mut manager, "Unrelated", Priority::Low);

    let hits: Vec<u64> = manager.search_tasks("rust").iter().map(|t| t.id).collect();
    assert_eq!(hits, vec![a, b, c]);
    assert!(manager.search_tasks("RUST").iter().any(|t| t.id == a));
    assert!(!manager.search_tasks("python").iter().any(|t| t.id == d));
}

#[test]
fn test_search_empty_query_matches_everything() {
    let mut manager = TaskManager::new();
    add(&mut manager, "alpha", Priority::Low);
    add(&mut manager, "beta", Priority::High);
    assert_eq!(manager.search_tasks("").len(), 2);
}

#[test]
fn test_statistics_consistency() {
    let mut manager = TaskManager::new();
    let a = add(&mut manager, "p", Priority::Urgent);
    let b = add(&mut manager, "q", Priority::Urgent);
    let c = add(&mut manager, "r", Priority::Low);
    let _d = add(&mut manager, "s", Priority::Medium);
    manager.complete_task(a).unwrap();
    manager.start_task(b).unwrap();
    manager.cancel_task(c).unwrap();

    let stats = manager.get_statistics();
    assert_eq!(stats.total, 4);
    assert_eq!(stats.completed, 1);
    assert_eq!(stats.in_progress, 1);
    assert_eq!(stats.pending, 1);
    let cancelled = stats.total - stats.pending - stats.in_progress - stats.completed;
    assert_eq!(cancelled, 1);
    // Urgent and not completed: only b.
    assert_eq!(stats.urgent, 1);
    assert!(stats.urgent <= stats.total);
}

#[test]
fn test_scenario_fix_bug_then_docs() {
    let mut manager = TaskManager::new();
    let _fix = add(&mut manager, "Fix bug", Priority::Urgent);
    let docs = add(&mut manager, "Write docs", Priority::Low);

    let titles: Vec<String> = manager.list_tasks(None).iter().map(|t| t.title.clone()).collect();
    assert_eq!(titles, vec!["Fix bug".to_string(), "Write docs".to_string()]);

    manager.complete_task(docs).unwrap();
    let stats = manager.get_statistics();
    assert_eq!(stats.completed, 1);
    assert_eq!(stats.pending, 1);
}

#[test]
fn test_scenario_empty_store() {
    let mut manager = TaskManager::new();
    let stats = manager.get_statistics();
    assert_eq!(stats.total, 0);
    assert_eq!(stats.completed, 0);
    assert_eq!(stats.pending, 0);
    assert_eq!(stats.in_progress, 0);
    assert_eq!(stats.urgent, 0);

    let id = add(&mut manager, "first entry", Priority::Low);
    assert_eq!(id, 1);
    let stored = manager.to_json();
    assert_ne!(stored, "{}");
    let mut reloaded = TaskManager::new();
    reloaded.load(&stored).unwrap();
    assert_eq!(reloaded.len(), 1);
    assert_eq!(reloaded.get_task(id).unwrap().title, "first entry");
}
