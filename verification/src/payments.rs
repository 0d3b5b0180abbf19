//! The payment confirmation operation.
use vstd::prelude::*;

use crate::codec::{delivery_request_payload, encode_delivery_request_event};
use crate::models::{EventType, OrderEntity, OrderV, OutboxEntryV, PaymentEntity, PaymentV};
use crate::status::{OrderStatus, OutboxStatus, PaymentStatus};
use crate::store::{
    has_order, has_payment, lemma_unique_idx_order, lemma_update_keeps_unique_order,
    lemma_update_keeps_unique_payment, order_idx, payment_idx, Store,
};
use crate::AppError;

verus! {

/// The rows a successful payment confirmation wrote, handed back to the
/// caller.
pub struct MockPayRes {
    pub updated_payment: PaymentEntity,
    pub updated_order: OrderEntity,
}

/// Marks a pending payment paid, for demonstration in place of a real
/// provider callback.
///
/// Two conditional updates commit as one atomic unit: the payment moves
/// `PENDING -> PAID`, and its order moves `PAYMENT_PENDING ->
/// DELIVERY_PENDING`; partial application is impossible — if either row
/// is not in its expected state, neither is touched.  The
/// `delivery.order_request` event row, carrying the order's address
/// snapshot, is written in the same unit.
pub fn mock_pay(store: &mut Store, payment_id: u128, now: i64) -> (r: Result<MockPayRes, AppError>)
    requires
        old(store).wf(),
        old(store).next_outbox_id < i64::MAX,
    ensures
        final(store).wf(),
        ({
            let ps = old(store).payments_v();
            let pj = payment_idx(ps, payment_id as int);
            let pay_gate = has_payment(ps, payment_id as int) && ps[pj].status
                == PaymentStatus::Pending;
            let s = old(store).orders_v();
            let oj = order_idx(s, ps[pj].order_id);
            let order_gate = has_order(s, ps[pj].order_id) && s[oj].status
                == OrderStatus::PaymentPending;
            match r {
                Err(e) => {
                    &&& e == AppError::NotFound
                    &&& *final(store) == *old(store)
                    &&& !(pay_gate && order_gate)
                },
                Ok(res) => {
                    &&& pay_gate
                    &&& order_gate
                    &&& res.updated_payment@ == PaymentV { status: PaymentStatus::Paid, ..ps[pj] }
                    &&& res.updated_order@ == OrderV {
                        status: OrderStatus::DeliveryPending,
                        ..s[oj]
                    }
                    &&& final(store).payments_v() == ps.update(pj, res.updated_payment@)
                    &&& final(store).orders_v() == s.update(oj, res.updated_order@)
                    &&& final(store).outbox_v() == old(store).outbox_v().push(
                        OutboxEntryV {
                            id: old(store).next_outbox_id as int,
                            event_type: EventType::DeliveryOrderRequest,
                            payload: delivery_request_payload(
                                s[oj].delivery_address,
                                s[oj].id,
                                s[oj].order_type,
                            ),
                            status: OutboxStatus::Pending,
                            created_at: now as int,
                            updated_at: now as int,
                        },
                    )
                    &&& final(store).carts == old(store).carts
                    &&& final(store).cart_items == old(store).cart_items
                    &&& final(store).next_outbox_id == old(store).next_outbox_id + 1
                    &&& final(store).next_order_id == old(store).next_order_id
                    &&& final(store).next_cart_id == old(store).next_cart_id
                    &&& final(store).next_payment_id == old(store).next_payment_id
                },
            }
        }),
{
    let ghost ps = store.payments_v();
    let ghost s = store.orders_v();
    let pj = match store.find_payment(payment_id) {
        Some(pj) => pj,
        None => {
            return Err(AppError::NotFound);
        },
    };
    if !matches!(store.payments[pj].status, PaymentStatus::Pending) {
        return Err(AppError::NotFound);
    }
    let order_id = store.payments[pj].order_id;
    let oj = match store.find_order(order_id) {
        Some(oj) => oj,
        None => {
            return Err(AppError::NotFound);
        },
    };
    if !matches!(store.orders[oj].status, OrderStatus::PaymentPending) {
        return Err(AppError::NotFound);
    }
    let mut updated_payment = store.payments[pj].duplicate();
    updated_payment.status = PaymentStatus::Paid;
    let ghost upv = updated_payment@;
    let payment_out = updated_payment.duplicate();
    store.payments.set(pj, updated_payment);
    proof {
        assert(store.payments_v() =~= ps.update(pj as int, upv));
        assert(upv == PaymentV { status: PaymentStatus::Paid, ..ps[pj as int] });
        lemma_update_keeps_unique_payment(ps, pj as int, upv);
        assert forall|i: int|
            0 <= i < store.payments_v().len() implies (#[trigger] store.payments_v()[i]).id
            < store.next_payment_id as int by {
            assert(ps[i].id < old(store).next_payment_id as int);
        }
    }
    let mut updated_order = store.orders[oj].duplicate();
    updated_order.status = OrderStatus::DeliveryPending;
    let ghost uov = updated_order@;
    let order_out = updated_order.duplicate();
    let payload = encode_delivery_request_event(
        &updated_order.delivery_address,
        updated_order.id,
        &updated_order.order_type,
    );
    store.orders.set(oj, updated_order);
    proof {
        assert(store.orders_v() =~= s.update(oj as int, uov));
        assert(uov == OrderV { status: OrderStatus::DeliveryPending, ..s[oj as int] });
        lemma_update_keeps_unique_order(s, oj as int, uov);
        assert forall|i: int|
            0 <= i < store.orders_v().len() implies (#[trigger] store.orders_v()[i]).id
            < store.next_order_id as int by {
            assert(s[i].id < old(store).next_order_id as int);
        }
    }
    store.record_event(EventType::DeliveryOrderRequest, payload, now);
    Ok(MockPayRes { updated_payment: payment_out, updated_order: order_out })
}

} // verus!
