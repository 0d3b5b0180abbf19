use medbook_orderservice::carts::{create_cart, update_cart};
use medbook_orderservice::models::{AddressSnapshot, EventType};
use medbook_orderservice::orders::{
    cancel_order, create_order, create_payment_for_order, CreatePaymentForOrderReq,
};
use medbook_orderservice::pricing::PriceList;
use medbook_orderservice::status::{OrderStatus, OutboxStatus, PaymentStatus};
use medbook_orderservice::store::Store;
use medbook_orderservice::AppError;

fn address_for(patient_id: i32) -> AddressSnapshot {
    AddressSnapshot { patient_id, body: b"{\"street\":\"elm\",\"city\":\"acacia\"}".to_vec() }
}

/// Order creation: a cart with 2 of product 1 (unit 10.00) and 1 of
/// product 2 (unit 5.00); the address ownership check passes; creation
/// yields a PENDING order, an `inventory.reserve_order` outbox entry
/// carrying both line items, and the address snapshot frozen at creation.
#[test]
fn order_creation_writes_pending_order_and_reserve_event() {
    let mut store = Store::new();
    let cart = create_cart(&mut store, 7, &vec![(1, 2), (2, 1)], 10).unwrap();
    let order = create_order(&mut store, 7, cart.cart.id, &address_for(7), &b"DELIVERY".to_vec(), 20)
        .unwrap();
    assert_eq!(order.status, OrderStatus::Pending);
    assert_eq!(order.patient_id, 7);
    assert_eq!(order.cart_id, cart.cart.id);
    assert_eq!(order.delivery_address, address_for(7).body);
    assert_eq!(store.outbox_len(), 1);
    let entry = store.outbox_at(0);
    assert_eq!(entry.event_type, EventType::InventoryReserveOrder);
    assert_eq!(entry.status, OutboxStatus::Pending);
    assert_eq!(
        entry.payload,
        b"{\"order_id\":1,\"order_items\":[{\"product_id\":1,\"quantity\":2},{\"product_id\":2,\"quantity\":1}]}".to_vec()
    );
    // The snapshot is a point-in-time copy: later cart changes do not
    // reach into it.
    update_cart(&mut store, cart.cart.id, 7, &vec![(3, 9)], 30).unwrap();
    assert_eq!(store.order_by_id(order.id).unwrap().delivery_address, address_for(7).body);
}

#[test]
fn order_creation_from_missing_or_empty_cart_still_announces() {
    // The order's item view reads live from the cart rows it references;
    // an order created over a cart with no rows announces an empty item
    // list rather than failing.
    let mut store = Store::new();
    let order = create_order(&mut store, 7, 42, &address_for(7), &b"DELIVERY".to_vec(), 20)
        .unwrap();
    assert_eq!(order.status, OrderStatus::Pending);
    assert_eq!(store.outbox_at(0).payload, b"{\"order_id\":1,\"order_items\":[]}".to_vec());
}

#[test]
fn order_creation_rejects_foreign_address() {
    let mut store = Store::new();
    let cart = create_cart(&mut store, 7, &vec![(1, 2)], 10).unwrap();
    let r = create_order(&mut store, 7, cart.cart.id, &address_for(8), &b"DELIVERY".to_vec(), 20);
    assert!(matches!(r, Err(AppError::ForbiddenResource)));
    assert_eq!(store.orders.len(), 0);
    assert_eq!(store.outbox_len(), 0);
}

/// Payment: an order in RESERVED whose items total 25.00; creating a
/// payment with provider `qr_payment` yields a PENDING payment of 25.00
/// and advances the order to PAYMENT_PENDING atomically; a second attempt
/// against the same order conflicts once the first has committed.
#[test]
fn payment_creation_totals_and_gates_on_reserved() {
    let mut store = Store::new();
    let cart = create_cart(&mut store, 7, &vec![(1, 2), (2, 1)], 10).unwrap();
    create_order(&mut store, 7, cart.cart.id, &address_for(7), &b"DELIVERY".to_vec(), 20).unwrap();
    // The inventory service reserves the order.
    let outcome = medbook_orderservice::consumers::order_reserved(&mut store, b"{\"order_id\":1}");
    assert_eq!(outcome, medbook_orderservice::consumers::ApplyOutcome::Applied);

    let prices = PriceList { entries: vec![(1, 1000), (2, 500)] };
    let req = CreatePaymentForOrderReq { provider: "qr_payment".to_string() };
    let res = create_payment_for_order(&mut store, 1, 7, req, &prices, 40).unwrap();
    assert_eq!(res.payment.status, PaymentStatus::Pending);
    assert_eq!(res.payment.amount, 2500);
    assert_eq!(res.payment.order_id, 1);
    assert_eq!(res.updated_order.status, OrderStatus::PaymentPending);
    assert_eq!(store.order_by_id(1).unwrap().status, OrderStatus::PaymentPending);

    // The second attempt is still gated on RESERVED and conflicts.
    let req2 = CreatePaymentForOrderReq { provider: "qr_payment".to_string() };
    let r2 = create_payment_for_order(&mut store, 1, 7, req2, &prices, 41);
    assert!(matches!(r2, Err(AppError::NotFound)));
    assert_eq!(store.payments.len(), 1);
}

#[test]
fn payment_creation_rejects_unknown_provider() {
    let mut store = Store::new();
    let cart = create_cart(&mut store, 7, &vec![(1, 1)], 10).unwrap();
    create_order(&mut store, 7, cart.cart.id, &address_for(7), &b"DELIVERY".to_vec(), 20).unwrap();
    medbook_orderservice::consumers::order_reserved(&mut store, b"{\"order_id\":1}");
    let prices = PriceList { entries: vec![] };
    let req = CreatePaymentForOrderReq { provider: "card".to_string() };
    let r = create_payment_for_order(&mut store, 1, 7, req, &prices, 40);
    assert!(matches!(r, Err(AppError::BadRequest)));
    assert_eq!(store.payments.len(), 0);
}

/// Cancellation: an order in PAYMENT_PENDING receives a cancel request
/// gated on RESERVED; the operation reports not found and the order is
/// left untouched.
#[test]
fn cancellation_of_payment_pending_order_conflicts() {
    let mut store = Store::new();
    let cart = create_cart(&mut store, 7, &vec![(1, 2)], 10).unwrap();
    create_order(&mut store, 7, cart.cart.id, &address_for(7), &b"DELIVERY".to_vec(), 20).unwrap();
    medbook_orderservice::consumers::order_reserved(&mut store, b"{\"order_id\":1}");
    let prices = PriceList { entries: vec![(1, 1000)] };
    let req = CreatePaymentForOrderReq { provider: "qr_payment".to_string() };
    create_payment_for_order(&mut store, 1, 7, req, &prices, 40).unwrap();

    let outbox_before = store.outbox_len();
    let r = cancel_order(&mut store, 1, 7, 50);
    assert!(matches!(r, Err(AppError::NotFound)));
    let row = store.order_by_id(1).unwrap();
    assert_eq!(row.status, OrderStatus::PaymentPending);
    assert_eq!(row.deleted_at, None);
    assert_eq!(store.outbox_len(), outbox_before);
}
