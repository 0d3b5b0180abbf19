//! Patient-facing order operations: creation, cancellation, payment
//! creation.
//!
//! Each operation is gated by a conditional update — it succeeds exactly
//! when the targeted row exists with the expected owner and status — and
//! each operation that announces an event writes the outbox row in the
//! same atomic unit as its state mutation.
use vstd::prelude::*;

use crate::codec::{encode_order_items_event, order_items_payload};
use crate::models::{
    copy_bytes, AddressSnapshot, CartItemEntity, CartItemV, CreateOrderEntity,
    CreatePaymentEntity, EventType, OrderEntity, OrderV, OutboxEntryV, PaymentEntity, PaymentV,
};
use crate::pricing::{fits_i64, line_total, total_cents, PriceList};
use crate::status::{OrderStatus, OutboxStatus, PaymentStatus};
use crate::store::{
    has_order, items_of_cart, lemma_filter_singleton, lemma_unique_idx_order,
    lemma_update_keeps_unique_order, order_idx, Store,
};
use crate::AppError;

verus! {

/// The view of a freshly created order row.
pub open spec fn new_order_v(
    id: int,
    cart_id: int,
    patient_id: int,
    order_type: Seq<u8>,
    address: Seq<u8>,
    now: int,
) -> OrderV {
    OrderV {
        id,
        cart_id,
        patient_id,
        status: OrderStatus::Pending,
        order_type,
        delivery_id: None,
        delivery_address: address,
        created_at: now,
        updated_at: now,
        deleted_at: None,
    }
}

/// The guard of the patient-initiated cancellation: the row belongs to
/// the acting patient, is not soft-deleted, and stands at `RESERVED`.
pub open spec fn cancellable(o: OrderV, patient_id: int) -> bool {
    o.patient_id == patient_id && o.deleted_at is None && o.status == OrderStatus::Reserved
}

/// Creates an order from a cart: the new row is `PENDING`, carries the
/// delivery-address snapshot taken now and never re-fetched, and the
/// `inventory.reserve_order` event row is written atomically with it.
///
/// The address's recorded owner must be the acting patient; a mismatch is
/// an authorization failure and nothing is written.
pub fn create_order(
    store: &mut Store,
    patient_id: i32,
    cart_id: i32,
    address: &AddressSnapshot,
    order_type: &Vec<u8>,
    now: i64,
) -> (r: Result<OrderEntity, AppError>)
    requires
        old(store).wf(),
        old(store).next_order_id < i32::MAX,
        old(store).next_outbox_id < i64::MAX,
    ensures
        final(store).wf(),
        match r {
            Err(e) => e == AppError::ForbiddenResource && address.patient_id != patient_id
                && *final(store) == *old(store),
            Ok(o) => {
                &&& address.patient_id == patient_id
                &&& o@ == new_order_v(
                    old(store).next_order_id as int,
                    cart_id as int,
                    patient_id as int,
                    order_type@,
                    address.body@,
                    now as int,
                )
                &&& final(store).orders_v() == old(store).orders_v().push(o@)
                &&& final(store).outbox_v() == old(store).outbox_v().push(
                    OutboxEntryV {
                        id: old(store).next_outbox_id as int,
                        event_type: EventType::InventoryReserveOrder,
                        payload: order_items_payload(
                            old(store).next_order_id as int,
                            items_of_cart(old(store).items_v(), cart_id as int),
                        ),
                        status: OutboxStatus::Pending,
                        created_at: now as int,
                        updated_at: now as int,
                    },
                )
                &&& final(store).carts == old(store).carts
                &&& final(store).cart_items == old(store).cart_items
                &&& final(store).payments == old(store).payments
                &&& final(store).next_order_id == old(store).next_order_id + 1
                &&& final(store).next_outbox_id == old(store).next_outbox_id + 1
                &&& final(store).next_cart_id == old(store).next_cart_id
                &&& final(store).next_payment_id == old(store).next_payment_id
            },
        },
{
    if address.patient_id != patient_id {
        return Err(AppError::ForbiddenResource);
    }
    let id = store.next_order_id;
    let ghost s = store.orders_v();
    let insert = CreateOrderEntity {
        patient_id,
        delivery_address: copy_bytes(&address.body),
        cart_id,
        status: OrderStatus::Pending,
        order_type: copy_bytes(order_type),
    };
    let order = OrderEntity {
        id,
        cart_id: insert.cart_id,
        patient_id: insert.patient_id,
        status: insert.status,
        order_type: insert.order_type,
        delivery_id: None,
        delivery_address: insert.delivery_address,
        created_at: now,
        updated_at: now,
        deleted_at: None,
    };
    let ghost ov = order@;
    let result = order.duplicate();
    store.orders.push(order);
    store.next_order_id = id + 1;
    proof {
        assert(store.orders_v() =~= s.push(ov));
        assert forall|i: int, j: int|
            0 <= i < j < store.orders_v().len() implies #[trigger] store.orders_v()[i].id
            != #[trigger] store.orders_v()[j].id by {
            if j < s.len() as int {
                assert(s[i].id != s[j].id);
            } else {
                assert(s[i].id < id as int);
            }
        }
    }
    let items = store.items_for_cart(cart_id);
    let payload = encode_order_items_event(id, &items);
    store.record_event(EventType::InventoryReserveOrder, payload, now);
    Ok(result)
}

/// Cancels a reserved order for the acting patient: the conditional
/// update soft-deletes the row and moves it `RESERVED -> CANCEL_PENDING`,
/// and the `inventory.cancel_order` event row is written atomically with
/// it.  If no row matches — wrong owner, already deleted, or any other
/// status — the order is reported not found and nothing is written.
pub fn cancel_order(store: &mut Store, order_id: i32, patient_id: i32, now: i64) -> (r: Result<
    OrderEntity,
    AppError,
>)
    requires
        old(store).wf(),
        old(store).next_outbox_id < i64::MAX,
    ensures
        final(store).wf(),
        match r {
            Err(e) => {
                &&& e == AppError::NotFound
                &&& *final(store) == *old(store)
                &&& !(has_order(old(store).orders_v(), order_id as int) && cancellable(
                    old(store).orders_v()[order_idx(old(store).orders_v(), order_id as int)],
                    patient_id as int,
                ))
            },
            Ok(o) => {
                let s = old(store).orders_v();
                let j = order_idx(s, order_id as int);
                &&& has_order(s, order_id as int)
                &&& cancellable(s[j], patient_id as int)
                &&& o@ == OrderV {
                    status: OrderStatus::CancelPending,
                    deleted_at: Some(now as int),
                    ..s[j]
                }
                &&& final(store).orders_v() == s.update(j, o@)
                &&& final(store).outbox_v() == old(store).outbox_v().push(
                    OutboxEntryV {
                        id: old(store).next_outbox_id as int,
                        event_type: EventType::InventoryCancelOrder,
                        payload: order_items_payload(
                            order_id as int,
                            items_of_cart(old(store).items_v(), s[j].cart_id),
                        ),
                        status: OutboxStatus::Pending,
                        created_at: now as int,
                        updated_at: now as int,
                    },
                )
                &&& final(store).carts == old(store).carts
                &&& final(store).cart_items == old(store).cart_items
                &&& final(store).payments == old(store).payments
                &&& final(store).next_outbox_id == old(store).next_outbox_id + 1
                &&& final(store).next_order_id == old(store).next_order_id
                &&& final(store).next_cart_id == old(store).next_cart_id
                &&& final(store).next_payment_id == old(store).next_payment_id
            },
        },
{
    let ghost s = store.orders_v();
    let j = match store.find_order(order_id) {
        Some(j) => j,
        None => {
            return Err(AppError::NotFound);
        },
    };
    if store.orders[j].patient_id != patient_id {
        return Err(AppError::NotFound);
    }
    if store.orders[j].deleted_at.is_some() {
        return Err(AppError::NotFound);
    }
    if !matches!(store.orders[j].status, OrderStatus::Reserved) {
        return Err(AppError::NotFound);
    }
    let cart_id = store.orders[j].cart_id;
    let mut updated = store.orders[j].duplicate();
    updated.status = OrderStatus::CancelPending;
    updated.deleted_at = Some(now);
    let ghost uv = updated@;
    let result = updated.duplicate();
    store.orders.set(j, updated);
    proof {
        assert(store.orders_v() =~= s.update(j as int, uv));
        assert(uv == OrderV {
            status: OrderStatus::CancelPending,
            deleted_at: Some(now as int),
            ..s[j as int]
        });
        lemma_update_keeps_unique_order(s, j as int, uv);
        assert forall|i: int|
            0 <= i < store.orders_v().len() implies (#[trigger] store.orders_v()[i]).id
            < store.next_order_id as int by {
            assert(s[i].id < old(store).next_order_id as int);
        }
    }
    let items = store.items_for_cart(cart_id);
    let payload = encode_order_items_event(order_id, &items);
    store.record_event(EventType::InventoryCancelOrder, payload, now);
    Ok(result)
}

/// A request to create a payment for an order.
pub struct CreatePaymentForOrderReq {
    pub provider: String,
}

/// The rows a successful payment creation wrote, handed back to the
/// caller.
pub struct CreatePaymentForOrderRes {
    pub payment: PaymentEntity,
    pub updated_order: OrderEntity,
}

/// The guard of payment creation: the row belongs to the acting patient
/// and stands at `RESERVED`.
pub open spec fn payable(o: OrderV, patient_id: int) -> bool {
    o.patient_id == patient_id && o.status == OrderStatus::Reserved
}

/// Creates a payment attempt for a reserved order.
///
/// The amount is computed server-side now, from the order's line items
/// and the pricing response, and never supplied by the client.  The
/// payment row (`PENDING`) and the order's advance to `PAYMENT_PENDING`
/// commit as one atomic unit.  An unknown provider is rejected; a row
/// that is not the patient's reserved order is reported not found; an
/// amount beyond the amount column aborts the transaction.
pub fn create_payment_for_order(
    store: &mut Store,
    order_id: i32,
    patient_id: i32,
    req: CreatePaymentForOrderReq,
    prices: &PriceList,
    now: i64,
) -> (r: Result<CreatePaymentForOrderRes, AppError>)
    requires
        old(store).wf(),
        prices.wf(),
        old(store).next_payment_id < u128::MAX,
    ensures
        final(store).wf(),
        ({
            let s = old(store).orders_v();
            let j = order_idx(s, order_id as int);
            let gate = has_order(s, order_id as int) && payable(s[j], patient_id as int);
            let amount = line_total(
                items_of_cart(old(store).items_v(), s[j].cart_id),
                prices.entries_v(),
            );
            match r {
                Err(e) => {
                    &&& *final(store) == *old(store)
                    &&& if req.provider@ != ("qr_payment")@ {
                        e == AppError::BadRequest
                    } else if !gate {
                        e == AppError::NotFound
                    } else {
                        e == AppError::TransactionFailed && !(i64::MIN <= amount <= i64::MAX)
                    }
                },
                Ok(res) => {
                    &&& req.provider@ == ("qr_payment")@
                    &&& gate
                    &&& i64::MIN <= amount <= i64::MAX
                    &&& res.updated_order@ == OrderV { status: OrderStatus::PaymentPending, ..s[j] }
                    &&& res.payment@ == PaymentV {
                        id: old(store).next_payment_id as int,
                        order_id: order_id as int,
                        amount,
                        status: PaymentStatus::Pending,
                        provider: req.provider@,
                        provider_ref: None,
                        failure_reason: None,
                        created_at: now as int,
                        updated_at: now as int,
                    }
                    &&& final(store).orders_v() == s.update(j, res.updated_order@)
                    &&& final(store).payments_v() == old(store).payments_v().push(res.payment@)
                    &&& final(store).carts == old(store).carts
                    &&& final(store).cart_items == old(store).cart_items
                    &&& final(store).outbox == old(store).outbox
                    &&& final(store).next_payment_id == old(store).next_payment_id + 1
                    &&& final(store).next_order_id == old(store).next_order_id
                    &&& final(store).next_cart_id == old(store).next_cart_id
                    &&& final(store).next_outbox_id == old(store).next_outbox_id
                },
            }
        }),
{
    if !(req.provider == ("qr_payment").to_owned()) {
        return Err(AppError::BadRequest);
    }
    let ghost s = store.orders_v();
    let j = match store.find_order(order_id) {
        Some(j) => j,
        None => {
            return Err(AppError::NotFound);
        },
    };
    if store.orders[j].patient_id != patient_id {
        return Err(AppError::NotFound);
    }
    if !matches!(store.orders[j].status, OrderStatus::Reserved) {
        return Err(AppError::NotFound);
    }
    let cart_id = store.orders[j].cart_id;
    let items = store.items_for_cart(cart_id);
    let total = match total_cents(&items, prices) {
        Some(t) => t,
        None => {
            return Err(AppError::TransactionFailed);
        },
    };
    let mut updated = store.orders[j].duplicate();
    updated.status = OrderStatus::PaymentPending;
    let ghost uv = updated@;
    let updated_order = updated.duplicate();
    store.orders.set(j, updated);
    proof {
        assert(store.orders_v() =~= s.update(j as int, uv));
        assert(uv == OrderV { status: OrderStatus::PaymentPending, ..s[j as int] });
        lemma_update_keeps_unique_order(s, j as int, uv);
        assert forall|i: int|
            0 <= i < store.orders_v().len() implies (#[trigger] store.orders_v()[i]).id
            < store.next_order_id as int by {
            assert(s[i].id < old(store).next_order_id as int);
        }
    }
    let pid = store.next_payment_id;
    let ghost ps = store.payments_v();
    let insert = CreatePaymentEntity {
        order_id,
        amount: total,
        provider: req.provider,
        status: PaymentStatus::Pending,
    };
    let payment = PaymentEntity {
        id: pid,
        order_id: insert.order_id,
        amount: insert.amount,
        status: insert.status,
        provider: insert.provider,
        provider_ref: None,
        failure_reason: None,
        created_at: now,
        updated_at: now,
    };
    let ghost pv = payment@;
    let payment_out = payment.duplicate();
    store.payments.push(payment);
    store.next_payment_id = pid + 1;
    proof {
        assert(store.payments_v() =~= ps.push(pv));
        assert forall|i: int, k: int|
            0 <= i < k < store.payments_v().len() implies #[trigger] store.payments_v()[i].id
            != #[trigger] store.payments_v()[k].id by {
            if k < ps.len() as int {
                assert(ps[i].id != ps[k].id);
            } else {
                assert(ps[i].id < pid as int);
            }
        }
    }
    Ok(CreatePaymentForOrderRes { payment: payment_out, updated_order })
}

// Listings are handed out newest-first, by update time.

/// Whether a listing is ordered newest-first.
pub open spec fn sorted_desc(s: Seq<OrderV>) -> bool {
    forall|i: int, j: int| #![trigger s[i].updated_at, s[j].updated_at]
        0 <= i < j < s.len() ==> s[i].updated_at >= s[j].updated_at
}

/// Inserts a row into a newest-first listing, after every row at least as
/// recent: rows of equal update time keep their first-come order.
pub open spec fn insert_desc(s: Seq<OrderV>, o: OrderV) -> Seq<OrderV>
    decreases s.len(),
{
    if s.len() == 0 {
        seq![o]
    } else if s[0].updated_at >= o.updated_at {
        seq![s[0]] + insert_desc(s.drop_first(), o)
    } else {
        seq![o] + s
    }
}

/// The newest-first listing of a table, by repeated insertion.
pub open spec fn sort_desc(s: Seq<OrderV>) -> Seq<OrderV>
    decreases s.len(),
{
    if s.len() == 0 {
        Seq::<OrderV>::empty()
    } else {
        insert_desc(sort_desc(s.drop_last()), s.last())
    }
}

proof fn lemma_insert_desc_props(s: Seq<OrderV>, o: OrderV)
    requires
        sorted_desc(s),
    ensures
        insert_desc(s, o).len() == s.len() + 1,
        sorted_desc(insert_desc(s, o)),
        insert_desc(s, o).to_multiset() == s.to_multiset().insert(o),
    decreases s.len(),
{
    broadcast use vstd::seq_lib::group_to_multiset_ensures;

    let r = insert_desc(s, o);
    if s.len() == 0 {
        assert(r =~= Seq::<OrderV>::empty().push(o));
        assert(r.to_multiset() =~= s.to_multiset().insert(o));
    } else if s[0].updated_at >= o.updated_at {
        let d = s.drop_first();
        assert(sorted_desc(d)) by {
            assert forall|i: int, j: int|
                0 <= i < j < d.len() implies (#[trigger] d[i].updated_at) >= (
            #[trigger] d[j].updated_at) by {
                assert(s[i + 1].updated_at >= s[j + 1].updated_at);
            }
        }
        lemma_insert_desc_props(d, o);
        let r1 = insert_desc(d, o);
        assert(r == seq![s[0]] + r1);
        assert forall|i: int, j: int|
            0 <= i < j < r.len() implies (#[trigger] r[i].updated_at) >= (
        #[trigger] r[j].updated_at) by {
            if i == 0 {
                let x = r1[j - 1];
                assert(r1.contains(x));
                assert(r1.to_multiset().count(x) > 0);
                if d.to_multiset().count(x) > 0 {
                    assert(d.contains(x));
                    let k = choose|k: int| 0 <= k < d.len() && d[k] == x;
                    assert(s[k + 1] == x);
                    assert(s[0].updated_at >= s[k + 1].updated_at);
                } else {
                    assert(x == o);
                }
            } else {
                assert(r1[i - 1].updated_at >= r1[j - 1].updated_at);
            }
        }
        assert(s =~= seq![s[0]] + d);
        vstd::seq_lib::lemma_multiset_commutative(seq![s[0]], d);
        vstd::seq_lib::lemma_multiset_commutative(seq![s[0]], r1);
        assert(r.to_multiset() =~= s.to_multiset().insert(o));
    } else {
        assert(r == seq![o] + s);
        assert forall|i: int, j: int|
            0 <= i < j < r.len() implies (#[trigger] r[i].updated_at) >= (
        #[trigger] r[j].updated_at) by {
            if i == 0 {
                if j == 1 {
                    assert(r[j] == s[0]);
                } else {
                    assert(s[0].updated_at >= s[j - 1].updated_at);
                }
            } else {
                assert(s[i - 1].updated_at >= s[j - 1].updated_at);
            }
        }
        vstd::seq_lib::lemma_multiset_commutative(seq![o], s);
        assert(r.to_multiset() =~= s.to_multiset().insert(o));
    }
}

/// The newest-first listing is ordered, and it reorders the table's rows
/// without losing or inventing any: the two hold the same rows, with the
/// same multiplicities.
pub proof fn lemma_sort_desc_ensures(s: Seq<OrderV>)
    ensures
        sort_desc(s).len() == s.len(),
        sorted_desc(sort_desc(s)),
        sort_desc(s).to_multiset() == s.to_multiset(),
    decreases s.len(),
{
    broadcast use vstd::seq_lib::group_to_multiset_ensures;

    if s.len() == 0 {
        assert(sort_desc(s).to_multiset() =~= s.to_multiset());
    } else {
        let d = s.drop_last();
        lemma_sort_desc_ensures(d);
        lemma_insert_desc_props(sort_desc(d), s.last());
        assert(s =~= d.push(s.last()));
        assert(s.to_multiset() == d.to_multiset().insert(s.last()));
    }
}

/// Where an exec loop has found the insertion point, the recursive
/// insertion is the point-wise one.
proof fn lemma_insert_desc_at_index(s: Seq<OrderV>, o: OrderV, idx: int)
    requires
        0 <= idx <= s.len(),
        forall|k: int| 0 <= k < idx ==> (#[trigger] s[k]).updated_at >= o.updated_at,
        idx == s.len() || s[idx].updated_at < o.updated_at,
    ensures
        insert_desc(s, o) == s.subrange(0, idx).push(o) + s.subrange(idx, s.len() as int),
    decreases idx,
{
    if idx == 0 {
        if s.len() == 0 {
            assert(insert_desc(s, o) =~= s.subrange(0, 0).push(o) + s.subrange(0, 0));
        } else {
            assert(insert_desc(s, o) == seq![o] + s);
            assert(insert_desc(s, o) =~= s.subrange(0, 0).push(o) + s.subrange(
                0,
                s.len() as int,
            ));
        }
    } else {
        let d = s.drop_first();
        assert(s[0].updated_at >= o.updated_at);
        assert forall|k: int| 0 <= k < idx - 1 implies (#[trigger] d[k]).updated_at
            >= o.updated_at by {
            assert(s[k + 1].updated_at >= o.updated_at);
        }
        lemma_insert_desc_at_index(d, o, idx - 1);
        assert(insert_desc(s, o) == seq![s[0]] + (d.subrange(0, idx - 1).push(o) + d.subrange(
            idx - 1,
            d.len() as int,
        )));
        assert(insert_desc(s, o) =~= s.subrange(0, idx).push(o) + s.subrange(
            idx,
            s.len() as int,
        ));
    }
}

/// Inserts a row into a vector kept newest-first.
fn insert_order_desc(v: &mut Vec<OrderEntity>, o: OrderEntity)
    ensures
        final(v)@.map_values(|x: OrderEntity| x@) == insert_desc(
            old(v)@.map_values(|x: OrderEntity| x@),
            o@,
        ),
{
    let ghost s = v@.map_values(|x: OrderEntity| x@);
    let mut idx: usize = 0;
    while idx < v.len() && v[idx].updated_at >= o.updated_at
        invariant
            s == v@.map_values(|x: OrderEntity| x@),
            idx <= v@.len(),
            forall|k: int| 0 <= k < idx ==> (#[trigger] s[k]).updated_at >= o.updated_at,
        decreases v@.len() - idx,
    {
        proof {
            assert(s[idx as int] == v@[idx as int]@);
        }
        idx = idx + 1;
    }
    proof {
        if idx < v@.len() {
            assert(s[idx as int] == v@[idx as int]@);
        }
        lemma_insert_desc_at_index(s, o@, idx as int);
    }
    let ghost ov = o@;
    v.insert(idx, o);
    proof {
        assert(v@.map_values(|x: OrderEntity| x@) =~= s.subrange(0, idx as int).push(ov)
            + s.subrange(idx as int, s.len() as int));
    }
}

/// An order with its rows and their total price.  The rows are read live
/// from the item table keyed by the order's cart: if the cart's rows were
/// deleted after the order was created, this view degrades to empty.
pub struct GetOrderRes {
    pub order: OrderEntity,
    pub order_items: Vec<CartItemEntity>,
    pub total_price: i64,
}

/// Whether an entry reproduces an order faithfully: the row itself, its
/// live item view, and their total.
pub open spec fn order_res_ok(
    e: GetOrderRes,
    o: OrderV,
    table: Seq<CartItemV>,
    prices: Seq<(i32, u32)>,
) -> bool {
    &&& e.order@ == o
    &&& e.order_items@.map_values(|it: CartItemEntity| it@) == items_of_cart(table, o.cart_id)
    &&& e.total_price as int == line_total(items_of_cart(table, o.cart_id), prices)
}

/// One order by id, with its live item view and total.
pub fn get_order(store: &Store, order_id: i32, prices: &PriceList) -> (r: Result<
    GetOrderRes,
    AppError,
>)
    requires
        store.wf(),
        prices.wf(),
    ensures
        ({
            let s = store.orders_v();
            let j = order_idx(s, order_id as int);
            let total = line_total(
                items_of_cart(store.items_v(), s[j].cart_id),
                prices.entries_v(),
            );
            match r {
                Err(e) => if !has_order(s, order_id as int) {
                    e == AppError::NotFound
                } else {
                    e == AppError::TransactionFailed && !fits_i64(total)
                },
                Ok(res) => has_order(s, order_id as int) && fits_i64(total) && order_res_ok(
                    res,
                    s[j],
                    store.items_v(),
                    prices.entries_v(),
                ),
            }
        }),
{
    let j = match store.find_order(order_id) {
        Some(j) => j,
        None => {
            return Err(AppError::NotFound);
        },
    };
    let order_items = store.items_for_cart(store.orders[j].cart_id);
    let total_price = match total_cents(&order_items, prices) {
        Some(t) => t,
        None => {
            return Err(AppError::TransactionFailed);
        },
    };
    Ok(GetOrderRes { order: store.orders[j].duplicate(), order_items, total_price })
}

/// One order of the acting patient, with its live item view and total.
pub fn get_order_for_patient(
    store: &Store,
    order_id: i32,
    patient_id: i32,
    prices: &PriceList,
) -> (r: Result<GetOrderRes, AppError>)
    requires
        store.wf(),
        prices.wf(),
    ensures
        ({
            let s = store.orders_v();
            let j = order_idx(s, order_id as int);
            let owned = has_order(s, order_id as int) && s[j].patient_id == patient_id as int;
            let total = line_total(
                items_of_cart(store.items_v(), s[j].cart_id),
                prices.entries_v(),
            );
            match r {
                Err(e) => if !owned {
                    e == AppError::NotFound
                } else {
                    e == AppError::TransactionFailed && !fits_i64(total)
                },
                Ok(res) => owned && fits_i64(total) && order_res_ok(
                    res,
                    s[j],
                    store.items_v(),
                    prices.entries_v(),
                ),
            }
        }),
{
    let j = match store.find_order(order_id) {
        Some(j) => j,
        None => {
            return Err(AppError::NotFound);
        },
    };
    if store.orders[j].patient_id != patient_id {
        return Err(AppError::NotFound);
    }
    let order_items = store.items_for_cart(store.orders[j].cart_id);
    let total_price = match total_cents(&order_items, prices) {
        Some(t) => t,
        None => {
            return Err(AppError::TransactionFailed);
        },
    };
    Ok(GetOrderRes { order: store.orders[j].duplicate(), order_items, total_price })
}

/// Every order in the system, newest first, each with its live item view
/// and total.
pub fn get_orders(store: &Store, prices: &PriceList) -> (r: Result<Vec<GetOrderRes>, AppError>)
    requires
        store.wf(),
        prices.wf(),
    ensures
        ({
            let s = store.orders_v();
            match r {
                Err(e) => {
                    &&& e == AppError::TransactionFailed
                    &&& exists|k: int|
                        0 <= k < s.len() && !fits_i64(
                            line_total(
                                items_of_cart(store.items_v(), (#[trigger] s[k]).cart_id),
                                prices.entries_v(),
                            ),
                        )
                },
                Ok(res) => {
                    &&& res@.len() == sort_desc(s).len()
                    &&& forall|k: int|
                        0 <= k < sort_desc(s).len() ==> order_res_ok(
                            #[trigger] res@[k],
                            sort_desc(s)[k],
                            store.items_v(),
                            prices.entries_v(),
                        )
                },
            }
        }),
{
    let ghost s = store.orders_v();
    let ghost sortedv = sort_desc(s);
    let mut ordered: Vec<OrderEntity> = Vec::new();
    proof {
        assert(s.subrange(0, 0) =~= Seq::<OrderV>::empty());
        assert(ordered@.map_values(|x: OrderEntity| x@) =~= sort_desc(s.subrange(0, 0)));
    }
    let mut i: usize = 0;
    while i < store.orders.len()
        invariant
            s == store.orders_v(),
            i <= store.orders.len(),
            ordered@.map_values(|x: OrderEntity| x@) == sort_desc(s.subrange(0, i as int)),
        decreases store.orders.len() - i,
    {
        proof {
            assert(s.subrange(0, i as int + 1).drop_last() =~= s.subrange(0, i as int));
            assert(s.subrange(0, i as int + 1).last() == s[i as int]);
            assert(s[i as int] == store.orders@[i as int]@);
        }
        insert_order_desc(&mut ordered, store.orders[i].duplicate());
        i = i + 1;
    }
    proof {
        assert(s.subrange(0, s.len() as int) =~= s);
    }
    let mut res: Vec<GetOrderRes> = Vec::new();
    let mut k: usize = 0;
    while k < ordered.len()
        invariant
            store.wf(),
            prices.wf(),
            s == store.orders_v(),
            sortedv == sort_desc(s),
            ordered@.map_values(|x: OrderEntity| x@) == sortedv,
            k <= ordered.len(),
            res@.len() == k,
            forall|m: int|
                0 <= m < k ==> order_res_ok(
                    #[trigger] res@[m],
                    sortedv[m],
                    store.items_v(),
                    prices.entries_v(),
                ),
        decreases ordered.len() - k,
    {
        proof {
            assert(sortedv[k as int] == ordered@[k as int]@);
        }
        let order_items = store.items_for_cart(ordered[k].cart_id);
        let total_price = match total_cents(&order_items, prices) {
            Some(t) => t,
            None => {
                proof {
                    broadcast use vstd::seq_lib::group_to_multiset_ensures;

                    lemma_sort_desc_ensures(s);
                    let x = sortedv[k as int];
                    assert(sortedv.contains(x));
                    assert(s.to_multiset().count(x) > 0);
                    assert(s.contains(x));
                    let m = choose|m: int| 0 <= m < s.len() && s[m] == x;
                    assert(!fits_i64(
                        line_total(
                            items_of_cart(store.items_v(), s[m].cart_id),
                            prices.entries_v(),
                        ),
                    ));
                }
                return Err(AppError::TransactionFailed);
            },
        };
        res.push(GetOrderRes { order: ordered[k].duplicate(), order_items, total_price });
        k = k + 1;
    }
    Ok(res)
}

/// Every order of the acting patient, newest first, each with its live
/// item view and total.
pub fn get_my_orders(store: &Store, patient_id: i32, prices: &PriceList) -> (r: Result<
    Vec<GetOrderRes>,
    AppError,
>)
    requires
        store.wf(),
        prices.wf(),
    ensures
        ({
            let mine = store.orders_v().filter(|o: OrderV| o.patient_id == patient_id as int);
            match r {
                Err(e) => {
                    &&& e == AppError::TransactionFailed
                    &&& exists|k: int|
                        0 <= k < mine.len() && !fits_i64(
                            line_total(
                                items_of_cart(store.items_v(), (#[trigger] mine[k]).cart_id),
                                prices.entries_v(),
                            ),
                        )
                },
                Ok(res) => {
                    &&& res@.len() == sort_desc(mine).len()
                    &&& forall|k: int|
                        0 <= k < sort_desc(mine).len() ==> order_res_ok(
                            #[trigger] res@[k],
                            sort_desc(mine)[k],
                            store.items_v(),
                            prices.entries_v(),
                        )
                },
            }
        }),
{
    let ghost s = store.orders_v();
    let ghost mp = |o: OrderV| o.patient_id == patient_id as int;
    let ghost mine = s.filter(mp);
    let mut ordered: Vec<OrderEntity> = Vec::new();
    proof {
        assert(s.subrange(0, 0).filter(mp) =~= Seq::<OrderV>::empty());
        assert(ordered@.map_values(|x: OrderEntity| x@) =~= sort_desc(
            s.subrange(0, 0).filter(mp),
        ));
    }
    let mut i: usize = 0;
    while i < store.orders.len()
        invariant
            s == store.orders_v(),
            mp == (|o: OrderV| o.patient_id == patient_id as int),
            i <= store.orders.len(),
            ordered@.map_values(|x: OrderEntity| x@) == sort_desc(
                s.subrange(0, i as int).filter(mp),
            ),
        decreases store.orders.len() - i,
    {
        let ghost pre = s.subrange(0, i as int);
        proof {
            assert(s.subrange(0, i as int + 1) =~= pre + seq![s[i as int]]);
            Seq::<OrderV>::filter_distributes_over_add(pre, seq![s[i as int]], mp);
            lemma_filter_singleton(s[i as int], mp);
            assert(s[i as int] == store.orders@[i as int]@);
        }
        if store.orders[i].patient_id == patient_id {
            proof {
                let f1 = s.subrange(0, i as int + 1).filter(mp);
                assert(f1 =~= pre.filter(mp).push(s[i as int]));
                assert(f1.drop_last() =~= pre.filter(mp));
                assert(f1.last() == s[i as int]);
            }
            insert_order_desc(&mut ordered, store.orders[i].duplicate());
        } else {
            proof {
                assert(s.subrange(0, i as int + 1).filter(mp) =~= pre.filter(mp));
            }
        }
        i = i + 1;
    }
    proof {
        assert(s.subrange(0, s.len() as int) =~= s);
    }
    let ghost sortedv = sort_desc(mine);
    let mut res: Vec<GetOrderRes> = Vec::new();
    let mut k: usize = 0;
    while k < ordered.len()
        invariant
            store.wf(),
            prices.wf(),
            s == store.orders_v(),
            mp == (|o: OrderV| o.patient_id == patient_id as int),
            mine == s.filter(mp),
            sortedv == sort_desc(mine),
            ordered@.map_values(|x: OrderEntity| x@) == sortedv,
            k <= ordered.len(),
            res@.len() == k,
            forall|m: int|
                0 <= m < k ==> order_res_ok(
                    #[trigger] res@[m],
                    sortedv[m],
                    store.items_v(),
                    prices.entries_v(),
                ),
        decreases ordered.len() - k,
    {
        proof {
            assert(sortedv[k as int] == ordered@[k as int]@);
        }
        let order_items = store.items_for_cart(ordered[k].cart_id);
        let total_price = match total_cents(&order_items, prices) {
            Some(t) => t,
            None => {
                proof {
                    broadcast use vstd::seq_lib::group_to_multiset_ensures;

                    lemma_sort_desc_ensures(mine);
                    let x = sortedv[k as int];
                    assert(sortedv.contains(x));
                    assert(mine.to_multiset().count(x) > 0);
                    assert(mine.contains(x));
                    let m = choose|m: int| 0 <= m < mine.len() && mine[m] == x;
                    assert(!fits_i64(
                        line_total(
                            items_of_cart(store.items_v(), mine[m].cart_id),
                            prices.entries_v(),
                        ),
                    ));
                }
                return Err(AppError::TransactionFailed);
            },
        };
        res.push(GetOrderRes { order: ordered[k].duplicate(), order_items, total_price });
        k = k + 1;
    }
    Ok(res)
}

} // verus!
