//! Tests of the configuration, pattern, farm and counter helpers.

use task_tracker::counter::{ModernCounter, ModernIterator};
use task_tracker::errors::AppError;
use task_tracker::farm::{manage_vegetables, get_fruit_seasons, Animal, ApiGateway, CropManager, FarmAPI, UserService};
use task_tracker::patterns::{
    CreditCardPayment, CryptoPayment, DatabaseConfigBuilder, EmailSubscriber, EventPublisher,
    Observer, Order, OrderState, PayPalPayment, PendingState, SimpleCoffee, SmsSubscriber,
    UIFactory,
};

#[test]
fn test_config_builder_defaults_and_setters() {
    let config = DatabaseConfigBuilder::new()
        .host("db.example.com")
        .port(5433)
        .database("myapp")
        .username("admin")
        .password("SECRET-REDACTED")
        .pool_size(20)
        .timeout_secs(60)
        .build();
    assert!(config.is_ok());
}

#[test]
fn test_config_builder_rejects_bad_input() {
    let err = DatabaseConfigBuilder::new().host("").build().unwrap_err();
    assert_eq!(err, "Host cannot be empty");
    let err = DatabaseConfigBuilder::new().port(0).build().unwrap_err();
    assert_eq!(err, "Port must be greater than 0");
}

#[test]
fn test_payment_validation() {
    assert!(CreditCardPayment::new("4532015112830366", "123").validate());
    assert!(!CreditCardPayment::new("1234", "123").validate());
    assert!(!CreditCardPayment::new("4532015112830366", "12").validate());
    assert!(PayPalPayment::new("user@example.com").validate());
    assert!(!PayPalPayment::new("no-at-sign").validate());
    assert!(CryptoPayment::new("1A1z7agoat2WzWZQRNCZrRcB7SNWvqBBx5", "BTC").validate());
    assert!(!CryptoPayment::new("short", "BTC").validate());
}

#[test]
fn test_observers_and_publisher() {
    let email = EmailSubscriber::new("admin@example.com");
    assert_eq!(
        email.update("maintenance tonight"),
        "Email to admin@example.com: maintenance tonight"
    );
    let sms = SmsSubscriber::new("+1-555-0123");
    assert_eq!(sms.update("ping"), "SMS to +1-555-0123: ping");

    let mut publisher = EventPublisher::new();
    publisher.subscribe(Box::new(EmailSubscriber::new("a@example.com")));
    publisher.subscribe(Box::new(SmsSubscriber::new("+1-555-0000")));
    let lines = publisher.notify("hello");
    assert_eq!(lines.len(), 2);
    assert_eq!(lines[0], "Email to a@example.com: hello");
    assert_eq!(lines[1], "SMS to +1-555-0000: hello");
}

#[test]
fn test_order_state_machine() {
    let mut order = Order::new("ORD-001");
    assert_eq!(order.get_status(), "⏳ Pending");
    order.advance();
    assert_eq!(order.get_status(), "✅ Confirmed");
    order.advance();
    assert_eq!(order.get_status(), "🚚 Shipping");
    order.advance();
    assert_eq!(order.get_status(), "📦 Delivered");
    order.advance();
    assert_eq!(order.get_status(), "📦 Delivered");
    assert_eq!(PendingState.get_status(), "⏳ Pending");
}

#[test]
fn test_ui_factory() {
    let button = UIFactory::create_button("Click Me");
    assert_eq!(button.render(), "Button: Click Me");
    let input = UIFactory::create_text_input("Enter your name");
    assert_eq!(input.render(), "TextInput: Enter your name");
    let checkbox = UIFactory::create_checkbox("I agree");
    assert_eq!(checkbox.render(), "Checkbox: I agree");
    assert_eq!(SimpleCoffee.description(), "Simple Coffee");
}

#[test]
fn test_crop_manager() {
    let mut manager = CropManager::new();
    manager.plant("tomato", 5);
    manager.plant("tomato", 7);
    manager.plant("carrot", 3);
    assert_eq!(manager.harvest("tomato", 10), Some(10));
    assert_eq!(manager.harvest("tomato", 3), None);
    assert_eq!(manager.harvest("potato", 1), None);
    assert_eq!(manager.get_status(), "tomato: 2, carrot: 3, ");
}

#[test]
fn test_manage_vegetables() {
    let mut manager = CropManager::new();
    manage_vegetables(&mut manager);
    assert_eq!(manager.get_status(), "tomato: 40, carrot: 30, ");
}

#[test]
fn test_fruit_seasons() {
    let seasons = get_fruit_seasons();
    assert_eq!(seasons.len(), 2);
    assert_eq!(seasons[0], ("apple".to_string(), "秋季".to_string()));
    assert_eq!(seasons[1], ("strawberry".to_string(), "春季".to_string()));
}

#[test]
fn test_animal() {
    let mut animal = Animal::new("小白", "狗", 3);
    assert_eq!(animal.get_info(), "小白 是 狗，年龄 3 岁，尚未已喂食");
    animal.feed();
    assert!(animal.fed);
    assert_eq!(animal.get_info(), "小白 是 狗，年龄 3 岁，已喂食");
}

#[test]
fn test_farm_api() {
    let _api = FarmAPI::new();
    assert!(FarmAPI::health_check());
}

#[test]
fn test_user_service_and_gateway() {
    let mut service = UserService::new();
    let u = service.create_user("alice".to_string(), "alice@example.com".to_string());
    assert_eq!(u.id, 1);
    assert_eq!(service.get_user(1).unwrap().username, "alice");
    assert!(service.get_user(2).is_none());

    let gateway = ApiGateway::new();
    assert!(gateway.get_user_profile(1).is_none());
}

#[test]
fn test_modern_counter() {
    let mut counter = ModernCounter::new(3);
    assert_eq!(counter.size_hint(), (3, Some(3)));
    assert_eq!(counter.next(), Some(0));
    assert_eq!(counter.next(), Some(1));
    assert_eq!(counter.next(), Some(2));
    assert_eq!(counter.next(), None);
    assert_eq!(counter.size_hint(), (0, Some(3)));
}

#[test]
fn test_app_error() {
    let e = AppError::network_error(404, "not found");
    assert_eq!(e.describe(), "网络错误 404: not found");
    let e = AppError::custom_error("boom");
    assert_eq!(e.describe(), "自定义错误: boom");
}
