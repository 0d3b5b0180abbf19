use medbook_orderservice::models::{EventType, OrderEntity};
use medbook_orderservice::orders::cancel_order;
use medbook_orderservice::payments::mock_pay;
use medbook_orderservice::status::{OrderStatus, OutboxStatus, PaymentStatus};
use medbook_orderservice::store::Store;

fn store_with_reserved_order() -> Store {
    Store {
        carts: vec![],
        cart_items: vec![],
        orders: vec![OrderEntity {
            id: 1,
            cart_id: 1,
            patient_id: 7,
            status: OrderStatus::Reserved,
            order_type: b"DELIVERY".to_vec(),
            delivery_id: None,
            delivery_address: b"{\"street\":\"elm\"}".to_vec(),
            created_at: 100,
            updated_at: 100,
            deleted_at: None,
        }],
        payments: vec![],
        outbox: vec![],
        next_cart_id: 2,
        next_order_id: 2,
        next_outbox_id: 1,
        next_payment_id: 1,
    }
}

#[test]
fn record_event_appends_a_pending_row() {
    let mut store = Store::new();
    let id = store.record_event(EventType::InventoryReserveOrder, b"{}".to_vec(), 50);
    assert_eq!(id, 1);
    assert_eq!(store.outbox_len(), 1);
    let entry = store.outbox_at(0);
    assert_eq!(entry.id, 1);
    assert_eq!(entry.event_type, EventType::InventoryReserveOrder);
    assert_eq!(entry.status, OutboxStatus::Pending);
    assert_eq!(entry.payload, b"{}".to_vec());
    assert_eq!(entry.created_at, 50);
}

#[test]
fn routing_keys_match_the_broker_contract() {
    assert_eq!(EventType::InventoryReserveOrder.routing_key(), "inventory.reserve_order");
    assert_eq!(EventType::InventoryCancelOrder.routing_key(), "inventory.cancel_order");
    assert_eq!(EventType::DeliveryOrderRequest.routing_key(), "delivery.order_request");
}

#[test]
fn mark_published_is_a_conditional_update() {
    let mut store = Store::new();
    let id = store.record_event(EventType::DeliveryOrderRequest, b"{}".to_vec(), 50);
    assert!(store.mark_published(id, 60));
    assert_eq!(store.outbox_at(0).status, OutboxStatus::Published);
    assert_eq!(store.outbox_at(0).updated_at, 60);
    // Already published: zero rows match.
    assert!(!store.mark_published(id, 70));
    assert_eq!(store.outbox_at(0).updated_at, 60);
    // Unknown entry: zero rows match.
    assert!(!store.mark_published(999, 70));
}

#[test]
fn failed_cancellation_leaves_neither_mutation_nor_outbox_row() {
    let mut store = store_with_reserved_order();
    store.orders[0].status = OrderStatus::PaymentPending;
    let r = cancel_order(&mut store, 1, 7, 200);
    assert!(r.is_err());
    assert_eq!(store.order_by_id(1).unwrap().status, OrderStatus::PaymentPending);
    assert_eq!(store.order_by_id(1).unwrap().deleted_at, None);
    assert_eq!(store.outbox_len(), 0);
}

#[test]
fn successful_cancellation_writes_state_and_outbox_together() {
    let mut store = store_with_reserved_order();
    let r = cancel_order(&mut store, 1, 7, 200);
    assert!(r.is_ok());
    assert_eq!(store.order_by_id(1).unwrap().status, OrderStatus::CancelPending);
    assert_eq!(store.outbox_len(), 1);
    let entry = store.outbox_at(0);
    assert_eq!(entry.event_type, EventType::InventoryCancelOrder);
    assert_eq!(entry.status, OutboxStatus::Pending);
    assert_eq!(entry.created_at, 200);
}

#[test]
fn mock_pay_applies_both_halves_or_neither() {
    // The payment row would match, but its order has not reached
    // PAYMENT_PENDING: the whole unit rolls back, so the payment must not
    // be left PAID.
    let mut store = store_with_reserved_order();
    store.payments.push(medbook_orderservice::models::PaymentEntity {
        id: 9,
        order_id: 1,
        amount: 2500,
        status: PaymentStatus::Pending,
        provider: "qr_payment".to_string(),
        provider_ref: None,
        failure_reason: None,
        created_at: 100,
        updated_at: 100,
    });
    store.next_payment_id = 10;
    let r = mock_pay(&mut store, 9, 400);
    assert!(r.is_err());
    assert_eq!(store.payment_by_id(9).unwrap().status, PaymentStatus::Pending);
    assert_eq!(store.order_by_id(1).unwrap().status, OrderStatus::Reserved);
    assert_eq!(store.outbox_len(), 0);
}
