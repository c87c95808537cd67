//! Cross-cutting tests: ownership and borrowing around the store, trait
//! objects, error values, and testing-strategy exercises over the library.

use task_tracker::errors::AppError;
use task_tracker::farm::{ApiGateway, UserService};
use task_tracker::counter::{ModernCounter, ModernIterator};
use task_tracker::patterns::{
    DatabaseConfigBuilder, EmailSubscriber, EventPublisher, Observer, SmsSubscriber, UIFactory,
};
use task_tracker::store::{LoadError, NotFoundError, TaskManager};
use task_tracker::task::{Priority, Status, Task};
use task_tracker::users::{add_two, validate_email, User, UserManager};

fn seeded_store() -> TaskManager {
    let mut manager = TaskManager::new();
    manager.add_task(Task::new(0, "alpha", Priority::High));
    manager.add_task(Task::new(0, "beta", Priority::Low));
    manager
}

#[test]
fn test_complex_ownership_scenarios() {
    // Tasks are moved into the store; the store owns them and hands back
    // owned copies only on deletion.
    let mut manager = seeded_store();
    let removed = manager.delete_task(1).unwrap();
    assert_eq!(removed.title, "alpha");
    assert_eq!(manager.len(), 1);
}

#[test]
fn test_advanced_smart_pointers() {
    // Widgets live behind boxed trait objects.
    let widgets = vec![
        UIFactory::create_button("Go"),
        UIFactory::create_checkbox("Agree"),
    ];
    let rendered: Vec<String> = widgets.iter().map(|w| w.render()).collect();
    assert_eq!(rendered, vec!["Button: Go".to_string(), "Checkbox: Agree".to_string()]);
}

#[test]
fn test_complex_lifetime_scenarios() {
    // References returned by queries borrow from the store and stay usable
    // together.
    let manager = seeded_store();
    let listed = manager.list_tasks(None);
    let found = manager.search_tasks("alpha");
    assert_eq!(listed.len(), 2);
    assert_eq!(found.len(), 1);
    assert_eq!(found[0].title, listed[0].title);
}

#[test]
fn test_borrowing_checker_applications() {
    // A read borrow ends before the next mutation starts.
    let mut manager = seeded_store();
    let status = manager.get_task(2).unwrap().status;
    assert_eq!(status, Status::Pending);
    manager.complete_task(2).unwrap();
    assert_eq!(manager.get_task(2).unwrap().status, Status::Completed);
}

#[test]
fn test_complex_graph_ownership() {
    // One publisher owns many subscribers of different kinds.
    let mut publisher = EventPublisher::new();
    publisher.subscribe(Box::new(EmailSubscriber::new("a@example.com")));
    publisher.subscribe(Box::new(SmsSubscriber::new("+1")));
    publisher.subscribe(Box::new(EmailSubscriber::new("b@example.com")));
    assert_eq!(publisher.notify("x").len(), 3);
}

#[test]
fn test_advanced_borrowing_scenarios() {
    let mut registry = UserManager::new();
    registry
        .add_user(User::new("A".to_string(), "a@b.c".to_string(), 30).unwrap())
        .unwrap();
    let borrowed = registry.find_user_by_email("a@b.c").unwrap();
    assert_eq!(borrowed.age, 30);
    let adults = registry.get_adult_users();
    assert_eq!(adults.len(), 1);
}

#[test]
fn test_memory_management_optimization() {
    // A store of several hundred tasks stays consistent without any manual
    // bookkeeping.
    let mut manager = TaskManager::new();
    for i in 0..300 {
        let title = format!("task {}", i);
        manager.add_task(Task::new(0, &title, Priority::Medium));
    }
    assert_eq!(manager.len(), 300);
    assert_eq!(manager.get_statistics().total, 300);
}

#[test]
fn test_advanced_trait_objects() {
    let observers: Vec<Box<dyn Observer>> = vec![
        Box::new(EmailSubscriber::new("x@example.com")),
        Box::new(SmsSubscriber::new("+2")),
    ];
    let lines: Vec<String> = observers.iter().map(|o| o.update("hi")).collect();
    assert_eq!(lines[0], "Email to x@example.com: hi");
    assert_eq!(lines[1], "SMS to +2: hi");
}

#[test]
fn test_associated_types() {
    // `ModernIterator::Item` fixes what the counter hands out.
    let mut counter = ModernCounter::new(2);
    let first: Option<usize> = counter.next();
    assert_eq!(first, Some(0));
    assert_eq!(counter.next(), Some(1));
    assert_eq!(counter.next(), None);
}

#[test]
fn test_newtype_pattern() {
    // The not-found error wraps the missing identifier in its own type.
    let mut manager = TaskManager::new();
    let err: NotFoundError = manager.delete_task(9).unwrap_err();
    assert_eq!(err.id, 9);
}

#[test]
fn test_advanced_trait_bounds() {
    fn deliver<O: Observer>(observer: &O, message: &str) -> String {
        observer.update(message)
    }
    let email = EmailSubscriber::new("t@example.com");
    assert_eq!(deliver(&email, "msg"), "Email to t@example.com: msg");
}

#[test]
fn test_type_level_programming() {
    // Priority ranks give the bands a total order at the value level.
    let mut bands = vec![Priority::Low, Priority::Urgent, Priority::Medium, Priority::High];
    bands.sort_by_key(|p| p.rank());
    assert_eq!(
        bands,
        vec![Priority::Urgent, Priority::High, Priority::Medium, Priority::Low]
    );
}

#[test]
fn test_composition_patterns() {
    // The gateway is composed from the user service and forwards lookups.
    let mut service = UserService::new();
    service.create_user("bob".to_string(), "bob@example.com".to_string());
    assert_eq!(service.get_user(1).unwrap().email, "bob@example.com");
    let gateway = ApiGateway::new();
    assert!(gateway.get_user_profile(1).is_none());
}

#[test]
fn test_advanced_type_patterns() {
    // Builder-style task construction is fluent and keeps every field.
    let task = Task::new(0, "styled", Priority::Low)
        .with_description("desc")
        .with_tags(vec!["a".to_string()]);
    assert_eq!(task.description.as_deref(), Some("desc"));
    assert_eq!(task.tags, vec!["a".to_string()]);
}

#[test]
fn test_type_safe_api_patterns() {
    // A configuration can only be obtained through validation.
    assert!(DatabaseConfigBuilder::new().build().is_ok());
    assert!(DatabaseConfigBuilder::new().host("").build().is_err());
}

#[test]
fn test_network_error_handling() {
    let e = AppError::network_error(503, "unavailable");
    assert_eq!(e.describe(), "网络错误 503: unavailable");
}

#[test]
fn test_file_system_error_handling() {
    // Text that never came from the store is rejected and changes nothing.
    let mut manager = seeded_store();
    assert_eq!(manager.load("garbage bytes"), Err(LoadError::Malformed));
    assert_eq!(manager.len(), 2);
}

#[test]
fn test_configuration_error_handling() {
    let err = DatabaseConfigBuilder::new().port(0).build().unwrap_err();
    assert_eq!(err, "Port must be greater than 0");
}

#[test]
fn test_business_validation_error_handling() {
    let err = User::new("X".to_string(), "nope".to_string(), 30).unwrap_err();
    assert_eq!(err, "邮箱格式不正确");
    let err = User::new("X".to_string(), "x@y.z".to_string(), 10).unwrap_err();
    assert_eq!(err, "用户年龄必须大于等于13岁");
}

#[test]
fn test_resource_loading_error_handling() {
    let mut manager = TaskManager::new();
    assert_eq!(manager.load("{\"1\":"), Err(LoadError::Malformed));
    assert_eq!(manager.len(), 0);
}

#[test]
fn test_external_service_error_handling() {
    let e = AppError::custom_error("service down");
    assert_eq!(e.describe(), "自定义错误: service down");
}

#[test]
fn test_enterprise_testing_strategies() {
    // Layered checks: unit-level validation plus registry-level workflow.
    assert!(validate_email("qa@example.com"));
    let mut registry = UserManager::new();
    for i in 0..5 {
        let user =
            User::new(format!("U{}", i), format!("u{}@example.com", i), 21).unwrap();
        registry.add_user(user).unwrap();
    }
    assert_eq!(registry.user_count(), 5);
}

#[test]
fn test_property_based_testing_basics() {
    for a in -1000i32..1000i32 {
        let result = add_two(a);
        assert!(result > a);
        assert_eq!(result - 2, a);
    }
}

#[test]
fn test_performance_testing_examples() {
    let start = std::time::Instant::now();
    let mut manager = TaskManager::new();
    for i in 0..200 {
        let title = format!("bulk {}", i);
        manager.add_task(Task::new(0, &title, Priority::Low));
    }
    let _ = manager.to_json();
    assert!(start.elapsed().as_secs() < 5);
}

#[test]
fn test_integration_testing_scenarios() {
    // Store, queries and the document work together end to end.
    let mut manager = seeded_store();
    manager.complete_task(1).unwrap();
    let stored = manager.to_json();
    let mut reloaded = TaskManager::new();
    reloaded.load(&stored).unwrap();
    assert_eq!(reloaded.get_task(1).unwrap().status, Status::Completed);
    assert_eq!(reloaded.get_statistics().completed, 1);
}

#[test]
fn test_test_driven_development_example() {
    // The validation rules, written down first, drive the implementation.
    assert!(!validate_email("user@@example.com"));
    assert!(!validate_email("user@example"));
    assert!(validate_email("user@example.com"));
}

#[test]
fn test_boundary_and_error_testing() {
    assert!(User::new("B".to_string(), "b@c.d".to_string(), 13).is_ok());
    assert!(User::new("B".to_string(), "b@c.d".to_string(), 12).is_err());
    let mut manager = TaskManager::new();
    assert!(manager.delete_task(0).is_err());
    assert!(manager.delete_task(u64::MAX).is_err());
}
