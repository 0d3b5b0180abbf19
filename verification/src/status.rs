//! The order/payment state machine: statuses and the only transitions
//! allowed from each status.
use vstd::prelude::*;

verus! {

/// Lifecycle status of an order.
///
/// The legal transitions are
/// `Pending -> Reserved -> { PaymentPending -> DeliveryPending -> Delivered }`,
/// `Reserved -> Rejected` and `Reserved -> CancelPending -> Cancelled`.
#[derive(Clone, Copy, Debug, PartialEq, Eq, Structural)]
pub enum OrderStatus {
    Pending,
    Reserved,
    PaymentPending,
    DeliveryPending,
    Delivered,
    Rejected,
    CancelPending,
    Cancelled,
}

/// Lifecycle status of a payment attempt.
#[derive(Clone, Copy, Debug, PartialEq, Eq, Structural)]
pub enum PaymentStatus {
    Pending,
    Paid,
}

/// Lifecycle status of an outbox entry: created `Pending`, set `Published`
/// by the relay once the broker has accepted it.
#[derive(Clone, Copy, Debug, PartialEq, Eq, Structural)]
pub enum OutboxStatus {
    Pending,
    Published,
}

/// The edge relation of the order state machine.
pub open spec fn order_transition_allowed(from: OrderStatus, to: OrderStatus) -> bool {
    ||| (from == OrderStatus::Pending && to == OrderStatus::Reserved)
    ||| (from == OrderStatus::Reserved && to == OrderStatus::PaymentPending)
    ||| (from == OrderStatus::Reserved && to == OrderStatus::Rejected)
    ||| (from == OrderStatus::Reserved && to == OrderStatus::CancelPending)
    ||| (from == OrderStatus::PaymentPending && to == OrderStatus::DeliveryPending)
    ||| (from == OrderStatus::DeliveryPending && to == OrderStatus::Delivered)
    ||| (from == OrderStatus::CancelPending && to == OrderStatus::Cancelled)
}

/// A status with no outgoing transition at all.
pub open spec fn order_status_terminal(s: OrderStatus) -> bool {
    s == OrderStatus::Delivered || s == OrderStatus::Rejected || s == OrderStatus::Cancelled
}

/// Terminal statuses really have no outgoing edge, and every other status
/// has at least one.
pub proof fn lemma_terminal_statuses_have_no_successor(s: OrderStatus)
    ensures
        order_status_terminal(s) <==> (forall|t: OrderStatus| !order_transition_allowed(s, t)),
{
    if !order_status_terminal(s) {
        if s == OrderStatus::Pending {
            assert(order_transition_allowed(s, OrderStatus::Reserved));
        } else if s == OrderStatus::Reserved {
            assert(order_transition_allowed(s, OrderStatus::PaymentPending));
        } else if s == OrderStatus::PaymentPending {
            assert(order_transition_allowed(s, OrderStatus::DeliveryPending));
        } else if s == OrderStatus::DeliveryPending {
            assert(order_transition_allowed(s, OrderStatus::Delivered));
        } else {
            assert(order_transition_allowed(s, OrderStatus::Cancelled));
        }
    }
}

/// The status column as it is persisted.
pub fn order_status_name(s: OrderStatus) -> (r: String)
    ensures
        r@ == order_status_name_spec(s),
{
    match s {
        OrderStatus::Pending => "PENDING".to_owned(),
        OrderStatus::Reserved => "RESERVED".to_owned(),
        OrderStatus::PaymentPending => "PAYMENT_PENDING".to_owned(),
        OrderStatus::DeliveryPending => "DELIVERY_PENDING".to_owned(),
        OrderStatus::Delivered => "DELIVERED".to_owned(),
        OrderStatus::Rejected => "REJECTED".to_owned(),
        OrderStatus::CancelPending => "CANCEL_PENDING".to_owned(),
        OrderStatus::Cancelled => "CANCELLED".to_owned(),
    }
}

pub open spec fn order_status_name_spec(s: OrderStatus) -> Seq<char> {
    match s {
        OrderStatus::Pending => "PENDING"@,
        OrderStatus::Reserved => "RESERVED"@,
        OrderStatus::PaymentPending => "PAYMENT_PENDING"@,
        OrderStatus::DeliveryPending => "DELIVERY_PENDING"@,
        OrderStatus::Delivered => "DELIVERED"@,
        OrderStatus::Rejected => "REJECTED"@,
        OrderStatus::CancelPending => "CANCEL_PENDING"@,
        OrderStatus::Cancelled => "CANCELLED"@,
    }
}

/// The payment status column as it is persisted.
pub fn payment_status_name(s: PaymentStatus) -> (r: String)
    ensures
        r@ == payment_status_name_spec(s),
{
    match s {
        PaymentStatus::Pending => "PENDING".to_owned(),
        PaymentStatus::Paid => "PAID".to_owned(),
    }
}

pub open spec fn payment_status_name_spec(s: PaymentStatus) -> Seq<char> {
    match s {
        PaymentStatus::Pending => "PENDING"@,
        PaymentStatus::Paid => "PAID"@,
    }
}

} // verus!
