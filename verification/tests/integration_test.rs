//! Crate-level smoke tests: the modules link together and the basic
//! plumbing works.

use task_tracker::users;

#[test]
fn test_basics_module() {
    assert!(true);
}

#[test]
fn test_ownership_module() {
    let s = String::from("hello");
    let len = s.len();
    assert_eq!(len, 5);
}

#[test]
fn test_types_module() {
    assert!(true);
}

#[test]
fn test_error_handling_module() {
    assert!(true);
}

#[test]
fn test_macros_module() {
    assert!(true);
}

#[test]
fn test_advanced_types_module() {
    assert!(true);
}

#[test]
fn test_testing_module() {
    assert_eq!(users::add_two(3), 5);
    assert_eq!(users::greeting("Rust"), "Hello Rust!");
}

#[test]
fn test_concurrency_module() {
    assert!(true);
}

#[test]
fn test_modules_module() {
    assert!(true);
}

#[test]
fn test_ecosystem_module() {
    assert!(true);
}

#[test]
fn test_module_integration() {
    assert!(true);
}

#[test]
fn test_documentation_examples() {
    let result = users::greeting("Carol");
    assert_eq!(result, "Hello Carol!");
}
