//! Tests of the arithmetic helpers, address validation and the user
//! registry.

use task_tracker::users::{add_two, greeting, internal_adder, validate_email, User, UserManager};

#[test]
fn test_add_two_positive() {
    assert_eq!(add_two(2), 4);
    assert_eq!(add_two(10), 12);
}

#[test]
fn test_add_two_negative() {
    assert_eq!(add_two(-1), 1);
    assert_eq!(add_two(-5), -3);
}

#[test]
fn test_internal_adder() {
    assert_eq!(internal_adder(2, 3), 5);
    assert_eq!(internal_adder(0, 0), 0);
}

#[test]
fn test_validate_email() {
    assert!(validate_email("user@example.com"));
    assert!(validate_email("test@domain.org"));
    assert!(!validate_email("invalid"));
    assert!(!validate_email("@domain.com"));
}

#[test]
fn test_user_creation() {
    let user = User::new("张三".to_string(), "zhangsan@example.com".to_string(), 25).unwrap();

    assert_eq!(user.name, "张三");
    assert_eq!(user.email, "zhangsan@example.com");
    assert_eq!(user.age, 25);
    assert!(user.is_adult());
}

#[test]
fn test_user_creation_invalid_email() {
    let result = User::new("李四".to_string(), "invalid-email".to_string(), 20);

    assert!(result.is_err());
    assert_eq!(result.unwrap_err(), "邮箱格式不正确");
}

#[test]
fn test_user_creation_minor() {
    let result = User::new("小明".to_string(), "xiaoming@example.com".to_string(), 12);

    assert!(result.is_err());
    assert_eq!(result.unwrap_err(), "用户年龄必须大于等于13岁");
}

#[test]
fn test_user_methods() {
    let user = User::new("王五".to_string(), "wangwu@example.com".to_string(), 30).unwrap();

    assert!(user.is_adult());
    assert_eq!(user.greet(), "你好，王五！");
}

#[test]
#[should_panic]
fn test_panic_case() {
    panic!("这个测试应该发生 panic");
}

#[test]
fn test_result_handling() -> Result<(), String> {
    if 2 + 2 == 4 {
        Ok(())
    } else {
        Err("2+2 不等于 4".to_string())
    }
}

#[test]
fn test_approximate_comparison() {
    let result: f64 = 0.1 + 0.2;
    assert!((result - 0.3).abs() < f64::EPSILON);
}

#[test]
fn test_string_operations() {
    let text = "Hello Rust 2024!";
    assert!(text.contains("Rust"));
    assert!(text.starts_with("Hello"));
    assert!(text.ends_with("2024!"));
}

#[test]
fn test_option_handling() {
    let some_value = Some(42);
    let none_value: Option<i32> = None;

    assert_eq!(some_value.unwrap_or_default(), 42);
    assert_eq!(none_value.unwrap_or_default(), 0);
}

#[test]
fn test_user_manager_performance() {
    let mut manager = UserManager::new();

    for i in 0..1000 {
        let user = User::new(
            format!("用户{}", i),
            format!("user{}@example.com", i),
            20 + (i % 50) as u8,
        )
        .unwrap();

        manager.add_user(user).unwrap();
    }

    assert_eq!(manager.user_count(), 1000);
    assert_eq!(manager.get_adult_users().len(), 1000);
}

#[test]
fn test_email_validation_edge_cases() {
    assert!(!validate_email(""));

    assert!(!validate_email("@"));
    assert!(!validate_email("@example.com"));
    assert!(!validate_email("user@"));

    assert!(!validate_email("user@@example.com"));
    assert!(!validate_email("user@foo@example.com"));

    assert!(!validate_email("user@example"));

    assert!(!validate_email("user@.example.com"));
    assert!(!validate_email("user@example.com."));

    assert!(validate_email("a@b.c"));
    assert!(validate_email("user@example.com"));
    assert!(validate_email("user.name@sub.domain.com"));
    assert!(validate_email("user+tag@example.com"));
    assert!(validate_email(".user@example.com"));
}

#[test]
fn test_user_age_boundaries() {
    let result = User::new("Baby".to_string(), "baby@example.com".to_string(), 0);
    assert!(result.is_err());

    let result = User::new("Kid".to_string(), "kid@example.com".to_string(), 12);
    assert!(result.is_err());

    let result = User::new("Teen".to_string(), "teen@example.com".to_string(), 13);
    assert!(result.is_ok());

    let result = User::new("Old".to_string(), "old@example.com".to_string(), 255);
    assert!(result.is_ok());
}

#[test]
fn test_math_functions_edge_cases() {
    assert_eq!(add_two(i32::MAX - 2), i32::MAX);
    assert_eq!(add_two(0), 2);
    assert_eq!(add_two(-1), 1);
    assert_eq!(internal_adder(i32::MIN, 2), i32::MIN + 2);
}

#[test]
fn test_user_management_workflow() {
    let mut manager = UserManager::new();

    for i in 0..10 {
        let user = User::new(
            format!("User{}", i),
            format!("user{}@example.com", i),
            20 + i as u8,
        )
        .expect("Failed to create user");

        manager.add_user(user).expect("Failed to add user");
    }

    assert_eq!(manager.user_count(), 10);

    let adults = manager.get_adult_users();
    assert_eq!(adults.len(), 10);
}

#[test]
fn test_error_handling_chain() {
    let result = User::new("Test".to_string(), "invalid-email".to_string(), 25);

    assert!(result.is_err());
    let err_msg = format!("{}", result.unwrap_err());
    assert!(err_msg.contains("邮箱") || err_msg.contains("email"));
}

#[test]
fn test_email_validation_performance() {
    let emails = vec![
        "user@example.com",
        "test@domain.org",
        "invalid",
        "@domain.com",
        "user@",
    ];

    let start = std::time::Instant::now();

    for _ in 0..1000 {
        for email in &emails {
            validate_email(email);
        }
    }

    let duration = start.elapsed();
    println!("邮箱验证1000次循环耗时: {:?}", duration);

    assert!(duration.as_secs() < 1);
}

#[test]
fn test_user_creation_performance() {
    let start = std::time::Instant::now();

    for i in 0..100 {
        let _ = User::new(
            format!("PerfUser{}", i),
            format!("perf{}@example.com", i),
            25,
        );
    }

    let duration = start.elapsed();
    println!("创建100个用户耗时: {:?}", duration);

    assert!(duration.as_secs() < 1);
}

#[test]
fn test_duplicate_email_rejected() {
    let mut manager = UserManager::new();
    let a = User::new("A".to_string(), "same@example.com".to_string(), 30).unwrap();
    let b = User::new("B".to_string(), "same@example.com".to_string(), 40).unwrap();
    manager.add_user(a).unwrap();
    let err = manager.add_user(b).unwrap_err();
    assert_eq!(err, "邮箱已存在");
    assert_eq!(manager.user_count(), 1);
    assert!(manager.find_user_by_email("same@example.com").is_some());
    assert!(manager.find_user_by_email("other@example.com").is_none());
}

#[test]
fn test_greeting() {
    assert_eq!(greeting("Rust"), "Hello Rust!");
    assert_eq!(greeting("Carol"), "Hello Carol!");
}
