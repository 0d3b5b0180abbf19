use medbook_orderservice::consumers::{
    delivery_created, delivery_success, order_cancel_success, order_rejected, order_reserved,
    ApplyOutcome,
};
use medbook_orderservice::models::{OrderEntity, PaymentEntity};
use medbook_orderservice::orders::{cancel_order, create_payment_for_order, CreatePaymentForOrderReq};
use medbook_orderservice::payments::mock_pay;
use medbook_orderservice::pricing::PriceList;
use medbook_orderservice::status::{OrderStatus, PaymentStatus};
use medbook_orderservice::store::Store;

fn all_statuses() -> Vec<OrderStatus> {
    vec![
        OrderStatus::Pending,
        OrderStatus::Reserved,
        OrderStatus::PaymentPending,
        OrderStatus::DeliveryPending,
        OrderStatus::Delivered,
        OrderStatus::Rejected,
        OrderStatus::CancelPending,
        OrderStatus::Cancelled,
    ]
}

fn store_with_order(status: OrderStatus) -> Store {
    Store {
        carts: vec![],
        cart_items: vec![],
        orders: vec![OrderEntity {
            id: 1,
            cart_id: 1,
            patient_id: 7,
            status,
            order_type: b"DELIVERY".to_vec(),
            delivery_id: None,
            delivery_address: b"{\"street\":\"elm\"}".to_vec(),
            created_at: 100,
            updated_at: 100,
            deleted_at: None,
        }],
        payments: vec![PaymentEntity {
            id: 9,
            order_id: 1,
            amount: 2500,
            status: PaymentStatus::Pending,
            provider: "qr_payment".to_string(),
            provider_ref: None,
            failure_reason: None,
            created_at: 100,
            updated_at: 100,
        }],
        outbox: vec![],
        next_cart_id: 2,
        next_order_id: 2,
        next_outbox_id: 1,
        next_payment_id: 10,
    }
}

#[test]
fn order_reserved_applies_only_from_pending() {
    for st in all_statuses() {
        let mut store = store_with_order(st);
        let outcome = order_reserved(&mut store, b"{\"order_id\":1}");
        let row = store.order_by_id(1).unwrap();
        if st == OrderStatus::Pending {
            assert_eq!(outcome, ApplyOutcome::Applied);
            assert_eq!(row.status, OrderStatus::Reserved);
        } else if st == OrderStatus::Reserved {
            assert_eq!(outcome, ApplyOutcome::AlreadyApplied);
            assert_eq!(row.status, st);
        } else {
            assert_eq!(outcome, ApplyOutcome::Stale);
            assert_eq!(row.status, st);
        }
    }
}

#[test]
fn order_rejected_applies_only_from_reserved() {
    for st in all_statuses() {
        let mut store = store_with_order(st);
        let outcome = order_rejected(&mut store, b"{\"order_id\":1}");
        let row = store.order_by_id(1).unwrap();
        if st == OrderStatus::Reserved {
            assert_eq!(outcome, ApplyOutcome::Applied);
            assert_eq!(row.status, OrderStatus::Rejected);
        } else if st == OrderStatus::Rejected {
            assert_eq!(outcome, ApplyOutcome::AlreadyApplied);
            assert_eq!(row.status, st);
        } else {
            assert_eq!(outcome, ApplyOutcome::Stale);
            assert_eq!(row.status, st);
        }
    }
}

#[test]
fn order_cancel_success_applies_only_from_cancel_pending() {
    for st in all_statuses() {
        let mut store = store_with_order(st);
        let outcome = order_cancel_success(&mut store, b"{\"order_id\":1}");
        let row = store.order_by_id(1).unwrap();
        if st == OrderStatus::CancelPending {
            assert_eq!(outcome, ApplyOutcome::Applied);
            assert_eq!(row.status, OrderStatus::Cancelled);
        } else if st == OrderStatus::Cancelled {
            assert_eq!(outcome, ApplyOutcome::AlreadyApplied);
            assert_eq!(row.status, st);
        } else {
            assert_eq!(outcome, ApplyOutcome::Stale);
            assert_eq!(row.status, st);
        }
    }
}

#[test]
fn delivery_success_applies_only_from_delivery_pending() {
    for st in all_statuses() {
        let mut store = store_with_order(st);
        let outcome = delivery_success(&mut store, b"{\"order_id\":1}");
        let row = store.order_by_id(1).unwrap();
        if st == OrderStatus::DeliveryPending {
            assert_eq!(outcome, ApplyOutcome::Applied);
            assert_eq!(row.status, OrderStatus::Delivered);
        } else if st == OrderStatus::Delivered {
            assert_eq!(outcome, ApplyOutcome::AlreadyApplied);
            assert_eq!(row.status, st);
        } else {
            assert_eq!(outcome, ApplyOutcome::Stale);
            assert_eq!(row.status, st);
        }
    }
}

#[test]
fn delivery_created_attaches_only_once_regardless_of_status() {
    for st in all_statuses() {
        let mut store = store_with_order(st);
        let payload = b"{\"order_id\":1,\"delivery_id\":\"d-1\"}";
        let outcome = delivery_created(&mut store, payload);
        assert_eq!(outcome, ApplyOutcome::Applied);
        let row = store.order_by_id(1).unwrap();
        assert_eq!(row.delivery_id.as_deref(), Some(b"d-1".as_slice()));
        assert_eq!(row.status, st);
        let conflicting = b"{\"order_id\":1,\"delivery_id\":\"d-2\"}";
        let outcome2 = delivery_created(&mut store, conflicting);
        assert_eq!(outcome2, ApplyOutcome::Stale);
        let row2 = store.order_by_id(1).unwrap();
        assert_eq!(row2.delivery_id.as_deref(), Some(b"d-1".as_slice()));
    }
}

#[test]
fn cancel_order_succeeds_only_from_reserved() {
    for st in all_statuses() {
        let mut store = store_with_order(st);
        let r = cancel_order(&mut store, 1, 7, 200);
        let row = store.order_by_id(1).unwrap();
        if st == OrderStatus::Reserved {
            let cancelled = r.unwrap();
            assert_eq!(cancelled.status, OrderStatus::CancelPending);
            assert_eq!(cancelled.deleted_at, Some(200));
            assert_eq!(row.status, OrderStatus::CancelPending);
            assert_eq!(row.deleted_at, Some(200));
        } else {
            assert!(matches!(r, Err(medbook_orderservice::AppError::NotFound)));
            assert_eq!(row.status, st);
            assert_eq!(row.deleted_at, None);
            assert_eq!(store.outbox_len(), 0);
        }
    }
}

#[test]
fn create_payment_succeeds_only_from_reserved() {
    let prices = PriceList { entries: vec![] };
    for st in all_statuses() {
        let mut store = store_with_order(st);
        let req = CreatePaymentForOrderReq { provider: "qr_payment".to_string() };
        let r = create_payment_for_order(&mut store, 1, 7, req, &prices, 300);
        let row = store.order_by_id(1).unwrap();
        if st == OrderStatus::Reserved {
            let res = r.unwrap();
            assert_eq!(res.updated_order.status, OrderStatus::PaymentPending);
            assert_eq!(row.status, OrderStatus::PaymentPending);
            assert_eq!(res.payment.status, PaymentStatus::Pending);
        } else {
            assert!(matches!(r, Err(medbook_orderservice::AppError::NotFound)));
            assert_eq!(row.status, st);
            assert_eq!(store.payments.len(), 1);
        }
    }
}

#[test]
fn mock_pay_succeeds_only_from_payment_pending() {
    for st in all_statuses() {
        let mut store = store_with_order(st);
        let r = mock_pay(&mut store, 9, 400);
        let row = store.order_by_id(1).unwrap();
        let pay = store.payment_by_id(9).unwrap();
        if st == OrderStatus::PaymentPending {
            let res = r.unwrap();
            assert_eq!(res.updated_order.status, OrderStatus::DeliveryPending);
            assert_eq!(res.updated_payment.status, PaymentStatus::Paid);
            assert_eq!(row.status, OrderStatus::DeliveryPending);
            assert_eq!(pay.status, PaymentStatus::Paid);
        } else {
            assert!(matches!(r, Err(medbook_orderservice::AppError::NotFound)));
            assert_eq!(row.status, st);
            assert_eq!(pay.status, PaymentStatus::Pending);
            assert_eq!(store.outbox_len(), 0);
        }
    }
}

#[test]
fn cancel_order_rejects_wrong_owner() {
    let mut store = store_with_order(OrderStatus::Reserved);
    let r = cancel_order(&mut store, 1, 8, 200);
    assert!(matches!(r, Err(medbook_orderservice::AppError::NotFound)));
    assert_eq!(store.order_by_id(1).unwrap().status, OrderStatus::Reserved);
}

#[test]
fn cancel_order_rejects_soft_deleted_order() {
    let mut store = store_with_order(OrderStatus::Reserved);
    store.orders[0].deleted_at = Some(150);
    let r = cancel_order(&mut store, 1, 7, 200);
    assert!(matches!(r, Err(medbook_orderservice::AppError::NotFound)));
}

#[test]
fn mock_pay_rejects_already_paid_payment() {
    let mut store = store_with_order(OrderStatus::PaymentPending);
    store.payments[0].status = PaymentStatus::Paid;
    let r = mock_pay(&mut store, 9, 400);
    assert!(matches!(r, Err(medbook_orderservice::AppError::NotFound)));
    assert_eq!(store.order_by_id(1).unwrap().status, OrderStatus::PaymentPending);
}
