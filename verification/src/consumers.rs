//! Applying events from upstream services onto local order state.
//!
//! Every handler is a conditional update gated on the expected prior
//! status, so a stale, duplicate or out-of-order delivery can never move
//! an order backwards: it reports its outcome instead of force-applying.
//! The broker delivers at least once, so each handler tolerates seeing the
//! same event again after its effect has already committed.
use vstd::prelude::*;

use crate::codec::{decode_delivery_event, decode_order_event, delivery_id_of, order_id_of};
use crate::models::OrderV;
use crate::status::{order_transition_allowed, OrderStatus};
use crate::store::{
    has_order, lemma_unique_idx_order, lemma_update_keeps_unique_order, order_idx,
    unique_order_ids, Store,
};

verus! {

/// What applying a consumed event did to the targeted order row.
///
/// `Applied`: the row was in the expected prior state and was advanced.
/// `AlreadyApplied`: the row already shows this event's effect — a
/// redelivery — and was left untouched.  `Stale`: the row is in some other
/// state, so the event was ignored.  `NotFound`: no row has the id.
/// `Malformed`: the payload did not decode; retrying can never succeed,
/// so the message is acknowledged and dropped rather than redelivered.
#[derive(Clone, Copy, Debug, PartialEq, Eq, Structural)]
pub enum ApplyOutcome {
    Applied,
    AlreadyApplied,
    Stale,
    NotFound,
    Malformed,
}

/// Outcome of the guarded status write for one order.
pub open spec fn status_outcome(
    s: Seq<OrderV>,
    id: int,
    expected: OrderStatus,
    target: OrderStatus,
) -> ApplyOutcome {
    if !has_order(s, id) {
        ApplyOutcome::NotFound
    } else if s[order_idx(s, id)].status == expected {
        ApplyOutcome::Applied
    } else if s[order_idx(s, id)].status == target {
        ApplyOutcome::AlreadyApplied
    } else {
        ApplyOutcome::Stale
    }
}

/// The orders table after the guarded status write.
pub open spec fn apply_status(
    s: Seq<OrderV>,
    id: int,
    expected: OrderStatus,
    target: OrderStatus,
) -> Seq<OrderV> {
    if status_outcome(s, id, expected, target) == ApplyOutcome::Applied {
        s.update(order_idx(s, id), OrderV { status: target, ..s[order_idx(s, id)] })
    } else {
        s
    }
}

/// Outcome of attaching a delivery to an order.
pub open spec fn delivery_outcome(s: Seq<OrderV>, id: int, delivery_id: Seq<u8>) -> ApplyOutcome {
    if !has_order(s, id) {
        ApplyOutcome::NotFound
    } else if s[order_idx(s, id)].delivery_id is None {
        ApplyOutcome::Applied
    } else if s[order_idx(s, id)].delivery_id == Some(delivery_id) {
        ApplyOutcome::AlreadyApplied
    } else {
        ApplyOutcome::Stale
    }
}

/// The orders table after attaching a delivery to an order.
pub open spec fn apply_delivery(s: Seq<OrderV>, id: int, delivery_id: Seq<u8>) -> Seq<OrderV> {
    if delivery_outcome(s, id, delivery_id) == ApplyOutcome::Applied {
        s.update(
            order_idx(s, id),
            OrderV { delivery_id: Some(delivery_id), ..s[order_idx(s, id)] },
        )
    } else {
        s
    }
}

/// The guarded status write: succeeds exactly when the row exists in the
/// expected prior status, and otherwise changes nothing.
pub fn conditional_status_update(
    store: &mut Store,
    order_id: i32,
    expected: OrderStatus,
    target: OrderStatus,
) -> (r: ApplyOutcome)
    requires
        old(store).wf(),
    ensures
        final(store).wf(),
        r == status_outcome(old(store).orders_v(), order_id as int, expected, target),
        final(store).orders_v() == apply_status(
            old(store).orders_v(),
            order_id as int,
            expected,
            target,
        ),
        final(store).carts == old(store).carts,
        final(store).cart_items == old(store).cart_items,
        final(store).payments == old(store).payments,
        final(store).outbox == old(store).outbox,
        final(store).next_cart_id == old(store).next_cart_id,
        final(store).next_order_id == old(store).next_order_id,
        final(store).next_outbox_id == old(store).next_outbox_id,
        final(store).next_payment_id == old(store).next_payment_id,
{
    let ghost s = store.orders_v();
    let found = store.find_order(order_id);
    match found {
        None => ApplyOutcome::NotFound,
        Some(j) => {
            if matches!(store.orders[j].status, s2 if s2 == expected) {
                let mut updated = store.orders[j].duplicate();
                updated.status = target;
                let ghost uv = updated@;
                store.orders.set(j, updated);
                proof {
                    assert(store.orders_v() =~= s.update(j as int, uv));
                    assert(uv == OrderV { status: target, ..s[j as int] });
                    lemma_update_keeps_unique_order(s, j as int, uv);
                    assert forall|i: int|
                        0 <= i < store.orders_v().len() implies (#[trigger] store.orders_v()[
                        i]).id < store.next_order_id as int by {
                        assert(s[i].id < old(store).next_order_id as int);
                    }
                }
                ApplyOutcome::Applied
            } else if store.orders[j].status == target {
                ApplyOutcome::AlreadyApplied
            } else {
                ApplyOutcome::Stale
            }
        },
    }
}

/// Attaches the delivery created for an order; no status change.  The
/// write is conditional on no delivery being attached yet, so a
/// redelivered or conflicting event cannot overwrite the attachment.
pub fn attach_delivery(store: &mut Store, order_id: i32, delivery_id: Vec<u8>) -> (r: ApplyOutcome)
    requires
        old(store).wf(),
    ensures
        final(store).wf(),
        r == delivery_outcome(old(store).orders_v(), order_id as int, delivery_id@),
        final(store).orders_v() == apply_delivery(
            old(store).orders_v(),
            order_id as int,
            delivery_id@,
        ),
        final(store).carts == old(store).carts,
        final(store).cart_items == old(store).cart_items,
        final(store).payments == old(store).payments,
        final(store).outbox == old(store).outbox,
        final(store).next_cart_id == old(store).next_cart_id,
        final(store).next_order_id == old(store).next_order_id,
        final(store).next_outbox_id == old(store).next_outbox_id,
        final(store).next_payment_id == old(store).next_payment_id,
{
    let ghost s = store.orders_v();
    let found = store.find_order(order_id);
    match found {
        None => ApplyOutcome::NotFound,
        Some(j) => {
            match &store.orders[j].delivery_id {
                None => {
                    let mut updated = store.orders[j].duplicate();
                    updated.delivery_id = Some(delivery_id);
                    let ghost uv = updated@;
                    store.orders.set(j, updated);
                    proof {
                        assert(store.orders_v() =~= s.update(j as int, uv));
                        assert(uv == OrderV { delivery_id: Some(delivery_id@), ..s[j as int] });
                        lemma_update_keeps_unique_order(s, j as int, uv);
                        assert forall|i: int|
                            0 <= i < store.orders_v().len() implies (#[trigger] store.orders_v()[
                            i]).id < store.next_order_id as int by {
                            assert(s[i].id < old(store).next_order_id as int);
                        }
                    }
                    ApplyOutcome::Applied
                },
                Some(existing) => {
                    if crate::models::bytes_eq(existing.as_slice(), delivery_id.as_slice()) {
                        ApplyOutcome::AlreadyApplied
                    } else {
                        ApplyOutcome::Stale
                    }
                },
            }
        },
    }
}

// Laws of the guarded write.

/// A transition applies if and only if the order's current status matches
/// the operation's required prior status; in every other case the table is
/// left unmodified, and in the applying case only the targeted row moves,
/// and it moves exactly to the target status.
pub proof fn lemma_conditional_update_guard(
    s: Seq<OrderV>,
    id: int,
    expected: OrderStatus,
    target: OrderStatus,
)
    ensures
        (status_outcome(s, id, expected, target) == ApplyOutcome::Applied <==> (has_order(s, id)
            && s[order_idx(s, id)].status == expected)),
        status_outcome(s, id, expected, target) != ApplyOutcome::Applied ==> apply_status(
            s,
            id,
            expected,
            target,
        ) == s,
        status_outcome(s, id, expected, target) == ApplyOutcome::Applied ==> {
            let t = apply_status(s, id, expected, target);
            let j = order_idx(s, id);
            &&& t.len() == s.len()
            &&& t[j] == OrderV { status: target, ..s[j] }
            &&& forall|i: int| 0 <= i < s.len() && i != j ==> t[i] == s[i]
        },
{
}

/// Applying the same consumed event a second time yields the same table as
/// applying it once: the first application either moved the row to the
/// target status (so the second observes `AlreadyApplied`) or changed
/// nothing.
pub proof fn lemma_status_apply_idempotent(
    s: Seq<OrderV>,
    id: int,
    expected: OrderStatus,
    target: OrderStatus,
)
    requires
        unique_order_ids(s),
        expected != target,
    ensures
        apply_status(apply_status(s, id, expected, target), id, expected, target) == apply_status(
            s,
            id,
            expected,
            target,
        ),
        status_outcome(s, id, expected, target) == ApplyOutcome::Applied ==> status_outcome(
            apply_status(s, id, expected, target),
            id,
            expected,
            target,
        ) == ApplyOutcome::AlreadyApplied,
{
    let s1 = apply_status(s, id, expected, target);
    if status_outcome(s, id, expected, target) == ApplyOutcome::Applied {
        let j = order_idx(s, id);
        assert(0 <= j < s.len() && s[j].id == id);
        assert(s1[j].id == id);
        lemma_update_keeps_unique_order(s, j, OrderV { status: target, ..s[j] });
        lemma_unique_idx_order(s1, id, j);
        assert(s1[order_idx(s1, id)].status == target);
        assert(status_outcome(s1, id, expected, target) == ApplyOutcome::AlreadyApplied);
        assert(apply_status(s1, id, expected, target) == s1);
    } else {
        assert(s1 == s);
    }
}

/// Attaching the same delivery a second time yields the same table as
/// attaching it once.
pub proof fn lemma_delivery_apply_idempotent(s: Seq<OrderV>, id: int, delivery_id: Seq<u8>)
    requires
        unique_order_ids(s),
    ensures
        apply_delivery(apply_delivery(s, id, delivery_id), id, delivery_id) == apply_delivery(
            s,
            id,
            delivery_id,
        ),
        delivery_outcome(s, id, delivery_id) == ApplyOutcome::Applied ==> delivery_outcome(
            apply_delivery(s, id, delivery_id),
            id,
            delivery_id,
        ) == ApplyOutcome::AlreadyApplied,
{
    let s1 = apply_delivery(s, id, delivery_id);
    if delivery_outcome(s, id, delivery_id) == ApplyOutcome::Applied {
        let j = order_idx(s, id);
        assert(0 <= j < s.len() && s[j].id == id);
        assert(s1[j].id == id);
        lemma_update_keeps_unique_order(s, j, OrderV { delivery_id: Some(delivery_id), ..s[j] });
        lemma_unique_idx_order(s1, id, j);
        assert(s1[order_idx(s1, id)].delivery_id == Some(delivery_id));
        assert(delivery_outcome(s1, id, delivery_id) == ApplyOutcome::AlreadyApplied);
        assert(apply_delivery(s1, id, delivery_id) == s1);
    } else {
        assert(s1 == s);
    }
}

/// The five event kinds this service consumes, by routing key.
#[derive(Clone, Copy, Debug, PartialEq, Eq, Structural)]
pub enum ConsumedKind {
    OrderReserved,
    OrderRejected,
    OrderCancelled,
    DeliveryCreated,
    DeliverySuccess,
}

/// The consumed kind registered under a routing key, if any.
pub open spec fn kind_of(key: Seq<char>) -> Option<ConsumedKind> {
    if key == ("orders.order_reserved")@ {
        Some(ConsumedKind::OrderReserved)
    } else if key == ("orders.order_rejected")@ {
        Some(ConsumedKind::OrderRejected)
    } else if key == ("orders.order_cancelled")@ {
        Some(ConsumedKind::OrderCancelled)
    } else if key == ("orders.delivery_created")@ {
        Some(ConsumedKind::DeliveryCreated)
    } else if key == ("orders.delivery_success")@ {
        Some(ConsumedKind::DeliverySuccess)
    } else {
        None
    }
}

/// The prior status a consumed status event requires of the order.
pub open spec fn expected_status_of(kind: ConsumedKind) -> OrderStatus {
    match kind {
        ConsumedKind::OrderReserved => OrderStatus::Pending,
        ConsumedKind::OrderRejected => OrderStatus::Reserved,
        ConsumedKind::OrderCancelled => OrderStatus::CancelPending,
        ConsumedKind::DeliveryCreated => OrderStatus::DeliveryPending,
        ConsumedKind::DeliverySuccess => OrderStatus::DeliveryPending,
    }
}

/// The status a consumed status event writes.
pub open spec fn target_status_of(kind: ConsumedKind) -> OrderStatus {
    match kind {
        ConsumedKind::OrderReserved => OrderStatus::Reserved,
        ConsumedKind::OrderRejected => OrderStatus::Rejected,
        ConsumedKind::OrderCancelled => OrderStatus::Cancelled,
        ConsumedKind::DeliveryCreated => OrderStatus::DeliveryPending,
        ConsumedKind::DeliverySuccess => OrderStatus::Delivered,
    }
}

/// The orders table after one consumed delivery is processed: decode,
/// then the guarded update; a payload that does not decode changes
/// nothing.
pub open spec fn consume_result(s: Seq<OrderV>, kind: ConsumedKind, payload: Seq<u8>) -> Seq<
    OrderV,
> {
    match kind {
        ConsumedKind::DeliveryCreated => match (order_id_of(payload), delivery_id_of(payload)) {
            (Some(id), Some(d)) => apply_delivery(s, id, d),
            _ => s,
        },
        _ => match order_id_of(payload) {
            Some(id) => apply_status(s, id, expected_status_of(kind), target_status_of(kind)),
            None => s,
        },
    }
}

/// The outcome reported for one consumed delivery.
pub open spec fn consume_outcome(
    s: Seq<OrderV>,
    kind: ConsumedKind,
    payload: Seq<u8>,
) -> ApplyOutcome {
    match kind {
        ConsumedKind::DeliveryCreated => match (order_id_of(payload), delivery_id_of(payload)) {
            (Some(id), Some(d)) => delivery_outcome(s, id, d),
            _ => ApplyOutcome::Malformed,
        },
        _ => match order_id_of(payload) {
            Some(id) => status_outcome(s, id, expected_status_of(kind), target_status_of(kind)),
            None => ApplyOutcome::Malformed,
        },
    }
}

/// Handles an `orders.order_reserved` delivery: the inventory service
/// reserved the order, so it advances `PENDING -> RESERVED`.
pub fn order_reserved(store: &mut Store, payload: &[u8]) -> (r: ApplyOutcome)
    requires
        old(store).wf(),
    ensures
        final(store).wf(),
        r == consume_outcome(old(store).orders_v(), ConsumedKind::OrderReserved, payload@),
        final(store).orders_v() == consume_result(
            old(store).orders_v(),
            ConsumedKind::OrderReserved,
            payload@,
        ),
        final(store).carts == old(store).carts,
        final(store).cart_items == old(store).cart_items,
        final(store).payments == old(store).payments,
        final(store).outbox == old(store).outbox,
{
    match decode_order_event(payload) {
        None => ApplyOutcome::Malformed,
        Some(id) => conditional_status_update(
            store,
            id,
            OrderStatus::Pending,
            OrderStatus::Reserved,
        ),
    }
}

/// Handles an `orders.order_rejected` delivery: the inventory service
/// could not reserve the order, so it advances `RESERVED -> REJECTED`.
pub fn order_rejected(store: &mut Store, payload: &[u8]) -> (r: ApplyOutcome)
    requires
        old(store).wf(),
    ensures
        final(store).wf(),
        r == consume_outcome(old(store).orders_v(), ConsumedKind::OrderRejected, payload@),
        final(store).orders_v() == consume_result(
            old(store).orders_v(),
            ConsumedKind::OrderRejected,
            payload@,
        ),
        final(store).carts == old(store).carts,
        final(store).cart_items == old(store).cart_items,
        final(store).payments == old(store).payments,
        final(store).outbox == old(store).outbox,
{
    match decode_order_event(payload) {
        None => ApplyOutcome::Malformed,
        Some(id) => conditional_status_update(
            store,
            id,
            OrderStatus::Reserved,
            OrderStatus::Rejected,
        ),
    }
}

/// Handles an `orders.order_cancelled` delivery: the cancellation was
/// confirmed upstream, so it advances `CANCEL_PENDING -> CANCELLED`.
pub fn order_cancel_success(store: &mut Store, payload: &[u8]) -> (r: ApplyOutcome)
    requires
        old(store).wf(),
    ensures
        final(store).wf(),
        r == consume_outcome(old(store).orders_v(), ConsumedKind::OrderCancelled, payload@),
        final(store).orders_v() == consume_result(
            old(store).orders_v(),
            ConsumedKind::OrderCancelled,
            payload@,
        ),
        final(store).carts == old(store).carts,
        final(store).cart_items == old(store).cart_items,
        final(store).payments == old(store).payments,
        final(store).outbox == old(store).outbox,
{
    match decode_order_event(payload) {
        None => ApplyOutcome::Malformed,
        Some(id) => conditional_status_update(
            store,
            id,
            OrderStatus::CancelPending,
            OrderStatus::Cancelled,
        ),
    }
}

/// Handles an `orders.delivery_created` delivery: attaches the delivery
/// id to the order without changing its status.
pub fn delivery_created(store: &mut Store, payload: &[u8]) -> (r: ApplyOutcome)
    requires
        old(store).wf(),
    ensures
        final(store).wf(),
        r == consume_outcome(old(store).orders_v(), ConsumedKind::DeliveryCreated, payload@),
        final(store).orders_v() == consume_result(
            old(store).orders_v(),
            ConsumedKind::DeliveryCreated,
            payload@,
        ),
        final(store).carts == old(store).carts,
        final(store).cart_items == old(store).cart_items,
        final(store).payments == old(store).payments,
        final(store).outbox == old(store).outbox,
{
    match decode_delivery_event(payload) {
        None => ApplyOutcome::Malformed,
        Some((id, delivery_id)) => attach_delivery(store, id, delivery_id),
    }
}

/// Handles an `orders.delivery_success` delivery: the order reached the
/// patient, so it advances `DELIVERY_PENDING -> DELIVERED`.
pub fn delivery_success(store: &mut Store, payload: &[u8]) -> (r: ApplyOutcome)
    requires
        old(store).wf(),
    ensures
        final(store).wf(),
        r == consume_outcome(old(store).orders_v(), ConsumedKind::DeliverySuccess, payload@),
        final(store).orders_v() == consume_result(
            old(store).orders_v(),
            ConsumedKind::DeliverySuccess,
            payload@,
        ),
        final(store).carts == old(store).carts,
        final(store).cart_items == old(store).cart_items,
        final(store).payments == old(store).payments,
        final(store).outbox == old(store).outbox,
{
    match decode_order_event(payload) {
        None => ApplyOutcome::Malformed,
        Some(id) => conditional_status_update(
            store,
            id,
            OrderStatus::DeliveryPending,
            OrderStatus::Delivered,
        ),
    }
}

/// The consumed kind registered under a routing key, if any.
pub fn parse_routing_key(key: &str) -> (r: Option<ConsumedKind>)
    ensures
        r == kind_of(key@),
{
    let k = key.to_owned();
    if k == ("orders.order_reserved").to_owned() {
        Some(ConsumedKind::OrderReserved)
    } else if k == ("orders.order_rejected").to_owned() {
        Some(ConsumedKind::OrderRejected)
    } else if k == ("orders.order_cancelled").to_owned() {
        Some(ConsumedKind::OrderCancelled)
    } else if k == ("orders.delivery_created").to_owned() {
        Some(ConsumedKind::DeliveryCreated)
    } else if k == ("orders.delivery_success").to_owned() {
        Some(ConsumedKind::DeliverySuccess)
    } else {
        None
    }
}

/// One step of the consumption pipeline: routes a broker delivery to the
/// handler registered for its routing key.  A key nothing is registered
/// under is reported as `None` with the store untouched.
pub fn handle_delivery(store: &mut Store, routing_key: &str, payload: &[u8]) -> (r: Option<
    ApplyOutcome,
>)
    requires
        old(store).wf(),
    ensures
        final(store).wf(),
        match kind_of(routing_key@) {
            Some(kind) => r == Some(consume_outcome(old(store).orders_v(), kind, payload@))
                && final(store).orders_v() == consume_result(
                old(store).orders_v(),
                kind,
                payload@,
            ),
            None => r is None && *final(store) == *old(store),
        },
        final(store).carts == old(store).carts,
        final(store).cart_items == old(store).cart_items,
        final(store).payments == old(store).payments,
        final(store).outbox == old(store).outbox,
{
    match parse_routing_key(routing_key) {
        None => None,
        Some(kind) => match kind {
            ConsumedKind::OrderReserved => Some(order_reserved(store, payload)),
            ConsumedKind::OrderRejected => Some(order_rejected(store, payload)),
            ConsumedKind::OrderCancelled => Some(order_cancel_success(store, payload)),
            ConsumedKind::DeliveryCreated => Some(delivery_created(store, payload)),
            ConsumedKind::DeliverySuccess => Some(delivery_success(store, payload)),
        },
    }
}

/// Replaying the same consumed delivery twice against the same orders
/// table yields the same final table as replaying it once, for every
/// consumed event kind: the pipeline tolerates the broker's at-least-once
/// redelivery.
pub proof fn lemma_consume_idempotent(s: Seq<OrderV>, kind: ConsumedKind, payload: Seq<u8>)
    requires
        unique_order_ids(s),
    ensures
        consume_result(consume_result(s, kind, payload), kind, payload) == consume_result(
            s,
            kind,
            payload,
        ),
{
    match kind {
        ConsumedKind::DeliveryCreated => {
            match (order_id_of(payload), delivery_id_of(payload)) {
                (Some(id), Some(d)) => {
                    lemma_delivery_apply_idempotent(s, id, d);
                },
                _ => {},
            }
        },
        _ => {
            match order_id_of(payload) {
                Some(id) => {
                    lemma_status_apply_idempotent(
                        s,
                        id,
                        expected_status_of(kind),
                        target_status_of(kind),
                    );
                },
                None => {},
            }
        },
    }
}

/// Every status write a consumed event performs is an edge of the order
/// state machine.
pub proof fn lemma_consumed_transitions_legal()
    ensures
        order_transition_allowed(OrderStatus::Pending, OrderStatus::Reserved),
        order_transition_allowed(OrderStatus::Reserved, OrderStatus::Rejected),
        order_transition_allowed(OrderStatus::CancelPending, OrderStatus::Cancelled),
        order_transition_allowed(OrderStatus::DeliveryPending, OrderStatus::Delivered),
{
}

} // verus!
