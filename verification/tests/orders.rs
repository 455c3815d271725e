use system_design::orders::models::{
    create_order_response, health, new_order_created_event, order_created_event, runtime_mode,
    order_key, str_is_blank, validate_order, CreateOrderRequest, OrderRejection, OrderStatus,
};
use system_design::orders::store::{finish_order, get_order, process_event, record_created, OrderStore};
use system_design::orders::{AppConfig, EventTransport, ORDERS_TOPIC};

fn request(user_id: &str, amount: u64) -> CreateOrderRequest {
    CreateOrderRequest { user_id: user_id.to_string(), amount }
}

#[test]
fn config_defaults() {
    let c = AppConfig::from_values(None, None);
    assert_eq!(c.http_addr, "127.0.0.1:8080");
    assert_eq!(c.kafka_bootstrap_servers, "127.0.0.1:9092");
    let c = AppConfig::from_values(Some("0.0.0.0:9000".to_string()), Some("k:1".to_string()));
    assert_eq!(c.http_addr, "0.0.0.0:9000");
    assert_eq!(c.kafka_bootstrap_servers, "k:1");
    assert_eq!(ORDERS_TOPIC, "orders");
}

#[test]
fn blank_user_ids() {
    assert!(str_is_blank(""));
    assert!(str_is_blank(" \t\n"));
    assert!(str_is_blank("\u{3000}\u{a0}"));
    assert!(!str_is_blank(" u "));
    for s in ["", " ", "\u{2007}", "x", "\u{200b}"] {
        assert_eq!(str_is_blank(s), s.trim().is_empty(), "{:?}", s);
    }
}

#[test]
fn order_validation() {
    assert_eq!(validate_order(&request("  ", 5)), Err(OrderRejection::MissingUserId));
    assert_eq!(validate_order(&request("", 0)), Err(OrderRejection::MissingUserId));
    assert_eq!(validate_order(&request("u1", 0)), Err(OrderRejection::ZeroAmount));
    assert_eq!(validate_order(&request("u1", 1)), Ok(()));
    assert_eq!(OrderRejection::MissingUserId.message(), "user_id is required");
    assert_eq!(OrderRejection::ZeroAmount.message(), "amount must be greater than 0");
}

#[test]
fn order_events() {
    let e = order_created_event(request("u1", 42), 7, 9);
    assert_eq!(e.event_id, 7);
    assert_eq!(e.order_id, 9);
    assert_eq!(e.user_id, "u1");
    assert_eq!(e.amount, 42);
    assert_eq!(e.event_type, "order.created");
    let a = new_order_created_event(request("u2", 3));
    let b = new_order_created_event(request("u2", 3));
    assert_eq!(a.event_type, "order.created");
    assert_ne!(a.order_id, b.order_id);
    assert_ne!(a.event_id, a.order_id);
    let r = create_order_response(9);
    assert_eq!(r.order_id, 9);
    assert_eq!(r.status, OrderStatus::Created);
}

#[test]
fn order_status_lifecycle() {
    let mut orders = OrderStore::default();
    assert!(get_order(&orders, 9).is_none());
    record_created(9, &mut orders);
    assert_eq!(get_order(&orders, 9).unwrap().status, OrderStatus::Created);
    process_event(order_created_event(request("u1", 1), 1, 9), &mut orders);
    let r = get_order(&orders, 9).unwrap();
    assert_eq!(r.order_id, 9);
    assert_eq!(r.status, OrderStatus::Processed);
    assert!(get_order(&orders, 10).is_none());
    assert_eq!(orders.get(9), Some(OrderStatus::Processed));
}

#[test]
fn health_body() {
    assert_eq!(runtime_mode(EventTransport::InMemory), "in_memory");
    assert_eq!(runtime_mode(EventTransport::Kafka), "kafka");
    let h = health(EventTransport::InMemory);
    assert_eq!(h.status, "up");
    assert_eq!(h.mode, "in_memory");
    assert_eq!(health(EventTransport::Kafka).mode, "kafka");
}

#[test]
fn orders_are_recorded_only_when_published() {
    let mut orders = OrderStore::new();
    assert!(finish_order(5, false, &mut orders).is_none());
    assert!(get_order(&orders, 5).is_none());
    let r = finish_order(5, true, &mut orders).unwrap();
    assert_eq!(r.order_id, 5);
    assert_eq!(r.status, OrderStatus::Created);
    assert_eq!(get_order(&orders, 5).unwrap().status, OrderStatus::Created);
}

#[test]
fn order_ids_are_version_four_and_keys_are_hyphenated() {
    let e = new_order_created_event(request("u", 1));
    for id in [e.event_id, e.order_id] {
        assert_eq!((id >> 76) & 0xf, 4);
        assert_eq!((id >> 62) & 3, 2);
    }
    assert_eq!(order_key(0x0123_4567_89ab_cdef_0011_2233_4455_6677), "01234567-89ab-cdef-0011-223344556677");
}
