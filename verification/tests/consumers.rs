use medbook_orderservice::consumers::{
    delivery_created, delivery_success, handle_delivery, order_cancel_success, order_rejected,
    order_reserved, ApplyOutcome,
};
use medbook_orderservice::models::OrderEntity;
use medbook_orderservice::status::OrderStatus;
use medbook_orderservice::store::Store;

fn store_with_order(status: OrderStatus) -> Store {
    Store {
        carts: vec![],
        cart_items: vec![],
        orders: vec![OrderEntity {
            id: 1,
            cart_id: 1,
            patient_id: 7,
            status,
            order_type: b"DELIVERY".to_vec(),
            delivery_id: None,
            delivery_address: b"{\"street\":\"elm\"}".to_vec(),
            created_at: 100,
            updated_at: 100,
            deleted_at: None,
        }],
        payments: vec![],
        outbox: vec![],
        next_cart_id: 2,
        next_order_id: 2,
        next_outbox_id: 1,
        next_payment_id: 1,
    }
}

fn snapshot(store: &Store) -> (OrderStatus, Option<Vec<u8>>, Option<i64>, i64) {
    let o = store.order_by_id(1).unwrap();
    (o.status, o.delivery_id.clone(), o.deleted_at, o.updated_at)
}

#[test]
fn replaying_order_reserved_changes_nothing_more() {
    let mut store = store_with_order(OrderStatus::Pending);
    let first = order_reserved(&mut store, b"{\"order_id\":1}");
    assert_eq!(first, ApplyOutcome::Applied);
    let after_once = snapshot(&store);
    let second = order_reserved(&mut store, b"{\"order_id\":1}");
    assert_eq!(second, ApplyOutcome::AlreadyApplied);
    assert_eq!(snapshot(&store), after_once);
}

#[test]
fn replaying_order_rejected_changes_nothing_more() {
    let mut store = store_with_order(OrderStatus::Reserved);
    assert_eq!(order_rejected(&mut store, b"{\"order_id\":1}"), ApplyOutcome::Applied);
    let after_once = snapshot(&store);
    assert_eq!(order_rejected(&mut store, b"{\"order_id\":1}"), ApplyOutcome::AlreadyApplied);
    assert_eq!(snapshot(&store), after_once);
}

#[test]
fn replaying_order_cancel_success_changes_nothing_more() {
    let mut store = store_with_order(OrderStatus::CancelPending);
    assert_eq!(order_cancel_success(&mut store, b"{\"order_id\":1}"), ApplyOutcome::Applied);
    let after_once = snapshot(&store);
    assert_eq!(
        order_cancel_success(&mut store, b"{\"order_id\":1}"),
        ApplyOutcome::AlreadyApplied
    );
    assert_eq!(snapshot(&store), after_once);
}

#[test]
fn replaying_delivery_created_changes_nothing_more() {
    let mut store = store_with_order(OrderStatus::DeliveryPending);
    let payload = b"{\"order_id\":1,\"delivery_id\":\"6f9619ff-8b86-d011-b42d-00cf4fc964ff\"}";
    assert_eq!(delivery_created(&mut store, payload), ApplyOutcome::Applied);
    let after_once = snapshot(&store);
    assert_eq!(delivery_created(&mut store, payload), ApplyOutcome::AlreadyApplied);
    assert_eq!(snapshot(&store), after_once);
    assert_eq!(
        store.order_by_id(1).unwrap().delivery_id.as_deref(),
        Some(b"6f9619ff-8b86-d011-b42d-00cf4fc964ff".as_slice())
    );
}

#[test]
fn replaying_delivery_success_changes_nothing_more() {
    let mut store = store_with_order(OrderStatus::DeliveryPending);
    let payload = b"{\"order_id\":1,\"delivery_id\":\"d-1\"}";
    assert_eq!(delivery_success(&mut store, payload), ApplyOutcome::Applied);
    let after_once = snapshot(&store);
    assert_eq!(delivery_success(&mut store, payload), ApplyOutcome::AlreadyApplied);
    assert_eq!(snapshot(&store), after_once);
    assert_eq!(store.order_by_id(1).unwrap().status, OrderStatus::Delivered);
}

#[test]
fn malformed_payload_is_fatal_and_touches_nothing() {
    let mut store = store_with_order(OrderStatus::Pending);
    let before = snapshot(&store);
    assert_eq!(order_reserved(&mut store, b"not json"), ApplyOutcome::Malformed);
    assert_eq!(order_reserved(&mut store, b"{\"order\":1}"), ApplyOutcome::Malformed);
    assert_eq!(order_reserved(&mut store, b"{\"order_id\":\"one\"}"), ApplyOutcome::Malformed);
    assert_eq!(order_reserved(&mut store, b"{\"order_id\":1} x"), ApplyOutcome::Malformed);
    assert_eq!(
        order_reserved(&mut store, b"{\"order_id\":99999999999}"),
        ApplyOutcome::Malformed
    );
    assert_eq!(delivery_created(&mut store, b"{\"order_id\":1}"), ApplyOutcome::Malformed);
    assert_eq!(snapshot(&store), before);
}

#[test]
fn unknown_order_is_reported() {
    let mut store = store_with_order(OrderStatus::Pending);
    assert_eq!(order_reserved(&mut store, b"{\"order_id\":2}"), ApplyOutcome::NotFound);
    assert_eq!(
        delivery_created(&mut store, b"{\"order_id\":2,\"delivery_id\":\"d-1\"}"),
        ApplyOutcome::NotFound
    );
}

#[test]
fn handle_delivery_routes_by_key() {
    let mut store = store_with_order(OrderStatus::Pending);
    let r = handle_delivery(&mut store, "orders.order_reserved", b"{\"order_id\":1}");
    assert_eq!(r, Some(ApplyOutcome::Applied));
    assert_eq!(store.order_by_id(1).unwrap().status, OrderStatus::Reserved);
    let r = handle_delivery(&mut store, "orders.order_rejected", b"{\"order_id\":1}");
    assert_eq!(r, Some(ApplyOutcome::Applied));
    assert_eq!(store.order_by_id(1).unwrap().status, OrderStatus::Rejected);
}

#[test]
fn handle_delivery_ignores_unregistered_keys() {
    let mut store = store_with_order(OrderStatus::Pending);
    let before = snapshot(&store);
    assert_eq!(handle_delivery(&mut store, "orders.unknown", b"{\"order_id\":1}"), None);
    assert_eq!(handle_delivery(&mut store, "", b"{\"order_id\":1}"), None);
    assert_eq!(snapshot(&store), before);
}

#[test]
fn handle_delivery_tolerates_whitespace_and_field_order() {
    let mut store = store_with_order(OrderStatus::DeliveryPending);
    let payload = b" { \"delivery_id\" : \"d-9\" , \"order_id\" : 1 } ";
    let r = handle_delivery(&mut store, "orders.delivery_created", payload);
    assert_eq!(r, Some(ApplyOutcome::Applied));
    assert_eq!(store.order_by_id(1).unwrap().delivery_id.as_deref(), Some(b"d-9".as_slice()));
}
