//! The local database as the service sees it: one value holding the five
//! tables, mutated only through the operations of this crate.
//!
//! Every mutating operation is all-or-nothing — it either returns success
//! having applied its whole effect, or returns an error having left the
//! store exactly as it was — which is the transactional guarantee the
//! underlying database provides to the original handlers.
use vstd::prelude::*;

use crate::models::{
    CartEntity, CartItemEntity, CartItemV, CartV, EventType, OrderEntity, OrderV, OutboxEntry,
    OutboxEntryV, PaymentEntity, PaymentV,
};
use crate::status::OutboxStatus;

verus! {

// Identity helpers over the table views.

pub open spec fn has_order(s: Seq<OrderV>, id: int) -> bool {
    exists|i: int| 0 <= i < s.len() && (#[trigger] s[i]).id == id
}

pub open spec fn order_idx(s: Seq<OrderV>, id: int) -> int {
    choose|i: int| 0 <= i < s.len() && (#[trigger] s[i]).id == id
}

pub open spec fn unique_order_ids(s: Seq<OrderV>) -> bool {
    forall|i: int, j: int| #![trigger s[i].id, s[j].id]
        0 <= i < j < s.len() ==> s[i].id != s[j].id
}

pub open spec fn has_payment(s: Seq<PaymentV>, id: int) -> bool {
    exists|i: int| 0 <= i < s.len() && (#[trigger] s[i]).id == id
}

pub open spec fn payment_idx(s: Seq<PaymentV>, id: int) -> int {
    choose|i: int| 0 <= i < s.len() && (#[trigger] s[i]).id == id
}

pub open spec fn unique_payment_ids(s: Seq<PaymentV>) -> bool {
    forall|i: int, j: int| #![trigger s[i].id, s[j].id]
        0 <= i < j < s.len() ==> s[i].id != s[j].id
}

pub open spec fn has_cart(s: Seq<CartV>, id: int) -> bool {
    exists|i: int| 0 <= i < s.len() && (#[trigger] s[i]).id == id
}

pub open spec fn cart_idx(s: Seq<CartV>, id: int) -> int {
    choose|i: int| 0 <= i < s.len() && (#[trigger] s[i]).id == id
}

pub open spec fn unique_cart_ids(s: Seq<CartV>) -> bool {
    forall|i: int, j: int| #![trigger s[i].id, s[j].id]
        0 <= i < j < s.len() ==> s[i].id != s[j].id
}

pub open spec fn has_item(s: Seq<CartItemV>, cart_id: int, product_id: int) -> bool {
    exists|i: int|
        0 <= i < s.len() && (#[trigger] s[i]).cart_id == cart_id && s[i].product_id == product_id
}

pub open spec fn item_idx(s: Seq<CartItemV>, cart_id: int, product_id: int) -> int {
    choose|i: int|
        0 <= i < s.len() && (#[trigger] s[i]).cart_id == cart_id && s[i].product_id == product_id
}

pub open spec fn unique_item_keys(s: Seq<CartItemV>) -> bool {
    forall|i: int, j: int| #![trigger s[i].cart_id, s[j].cart_id]
        0 <= i < j < s.len()
            ==> !(s[i].cart_id == s[j].cart_id && s[i].product_id == s[j].product_id)
}

pub open spec fn has_outbox(s: Seq<OutboxEntryV>, id: int) -> bool {
    exists|i: int| 0 <= i < s.len() && (#[trigger] s[i]).id == id
}

pub open spec fn outbox_idx(s: Seq<OutboxEntryV>, id: int) -> int {
    choose|i: int| 0 <= i < s.len() && (#[trigger] s[i]).id == id
}

/// Outbox identities increase with position: the rows stand in creation
/// order, which is the order the relay drains them in.
pub open spec fn increasing_outbox_ids(s: Seq<OutboxEntryV>) -> bool {
    forall|i: int, j: int| #![trigger s[i].id, s[j].id]
        0 <= i < j < s.len() ==> s[i].id < s[j].id
}

/// The item rows of a cart, in store position.
pub open spec fn items_of_cart(s: Seq<CartItemV>, cart_id: int) -> Seq<CartItemV> {
    s.filter(|it: CartItemV| it.cart_id == cart_id)
}

/// The five tables and the identifier sequences that back row creation.
pub struct Store {
    pub carts: Vec<CartEntity>,
    pub cart_items: Vec<CartItemEntity>,
    pub orders: Vec<OrderEntity>,
    pub payments: Vec<PaymentEntity>,
    pub outbox: Vec<OutboxEntry>,
    pub next_cart_id: i32,
    pub next_order_id: i32,
    pub next_outbox_id: i64,
    pub next_payment_id: u128,
}

impl Store {
    pub open spec fn carts_v(self) -> Seq<CartV> {
        self.carts@.map_values(|c: CartEntity| c@)
    }

    pub open spec fn items_v(self) -> Seq<CartItemV> {
        self.cart_items@.map_values(|c: CartItemEntity| c@)
    }

    pub open spec fn orders_v(self) -> Seq<OrderV> {
        self.orders@.map_values(|o: OrderEntity| o@)
    }

    pub open spec fn payments_v(self) -> Seq<PaymentV> {
        self.payments@.map_values(|p: PaymentEntity| p@)
    }

    pub open spec fn outbox_v(self) -> Seq<OutboxEntryV> {
        self.outbox@.map_values(|e: OutboxEntry| e@)
    }

    /// Well-formedness: row identities are unique in every table, the
    /// outbox stands in creation order, and the identifier sources are
    /// ahead of every row already present.
    pub open spec fn wf(self) -> bool {
        &&& unique_cart_ids(self.carts_v())
        &&& unique_item_keys(self.items_v())
        &&& unique_order_ids(self.orders_v())
        &&& unique_payment_ids(self.payments_v())
        &&& increasing_outbox_ids(self.outbox_v())
        &&& forall|i: int|
            0 <= i < self.carts_v().len() ==> (#[trigger] self.carts_v()[i]).id
                < self.next_cart_id as int
        &&& forall|i: int|
            0 <= i < self.items_v().len() ==> (#[trigger] self.items_v()[i]).cart_id
                < self.next_cart_id as int
        &&& forall|i: int|
            0 <= i < self.orders_v().len() ==> (#[trigger] self.orders_v()[i]).id
                < self.next_order_id as int
        &&& forall|i: int|
            0 <= i < self.payments_v().len() ==> (#[trigger] self.payments_v()[i]).id
                < self.next_payment_id as int
        &&& forall|i: int|
            0 <= i < self.outbox_v().len() ==> (#[trigger] self.outbox_v()[i]).id
                < self.next_outbox_id as int
    }

    /// An empty store, ready to allocate from identity 1 as the database's
    /// serial columns do.
    pub fn new() -> (r: Store)
        ensures
            r.wf(),
            r.carts_v() == Seq::<CartV>::empty(),
            r.items_v() == Seq::<CartItemV>::empty(),
            r.orders_v() == Seq::<OrderV>::empty(),
            r.payments_v() == Seq::<PaymentV>::empty(),
            r.outbox_v() == Seq::<OutboxEntryV>::empty(),
            r.next_cart_id == 1,
            r.next_order_id == 1,
            r.next_outbox_id == 1,
            r.next_payment_id == 1,
    {
        let r = Store {
            carts: Vec::new(),
            cart_items: Vec::new(),
            orders: Vec::new(),
            payments: Vec::new(),
            outbox: Vec::new(),
            next_cart_id: 1,
            next_order_id: 1,
            next_outbox_id: 1,
            next_payment_id: 1,
        };
        proof {
            assert(r.carts_v() =~= Seq::<CartV>::empty());
            assert(r.items_v() =~= Seq::<CartItemV>::empty());
            assert(r.orders_v() =~= Seq::<OrderV>::empty());
            assert(r.payments_v() =~= Seq::<PaymentV>::empty());
            assert(r.outbox_v() =~= Seq::<OutboxEntryV>::empty());
        }
        r
    }

    /// Index of the order row with the given id, if any.
    pub fn find_order(&self, id: i32) -> (r: Option<usize>)
        requires
            self.wf(),
        ensures
            match r {
                Some(j) => has_order(self.orders_v(), id as int) && j < self.orders_v().len()
                    && order_idx(self.orders_v(), id as int) == j as int,
                None => !has_order(self.orders_v(), id as int),
            },
    {
        let ghost s = self.orders_v();
        let mut j: usize = 0;
        while j < self.orders.len()
            invariant
                self.wf(),
                s == self.orders_v(),
                j <= self.orders.len(),
                forall|k: int| 0 <= k < j ==> (#[trigger] s[k]).id != id as int,
            decreases self.orders.len() - j,
        {
            if self.orders[j].id == id {
                proof {
                    lemma_unique_idx_order(s, id as int, j as int);
                }
                return Some(j);
            }
            j = j + 1;
        }
        None
    }

    /// Index of the payment row with the given id, if any.
    pub fn find_payment(&self, id: u128) -> (r: Option<usize>)
        requires
            self.wf(),
        ensures
            match r {
                Some(j) => has_payment(self.payments_v(), id as int) && j
                    < self.payments_v().len() && payment_idx(self.payments_v(), id as int)
                    == j as int,
                None => !has_payment(self.payments_v(), id as int),
            },
    {
        let ghost s = self.payments_v();
        let mut j: usize = 0;
        while j < self.payments.len()
            invariant
                self.wf(),
                s == self.payments_v(),
                j <= self.payments.len(),
                forall|k: int| 0 <= k < j ==> (#[trigger] s[k]).id != id as int,
            decreases self.payments.len() - j,
        {
            if self.payments[j].id == id {
                proof {
                    lemma_unique_idx_payment(s, id as int, j as int);
                }
                return Some(j);
            }
            j = j + 1;
        }
        None
    }

    /// Index of the cart row with the given id, if any.
    pub fn find_cart(&self, id: i32) -> (r: Option<usize>)
        requires
            self.wf(),
        ensures
            match r {
                Some(j) => has_cart(self.carts_v(), id as int) && j < self.carts_v().len()
                    && cart_idx(self.carts_v(), id as int) == j as int,
                None => !has_cart(self.carts_v(), id as int),
            },
    {
        let ghost s = self.carts_v();
        let mut j: usize = 0;
        while j < self.carts.len()
            invariant
                self.wf(),
                s == self.carts_v(),
                j <= self.carts.len(),
                forall|k: int| 0 <= k < j ==> (#[trigger] s[k]).id != id as int,
            decreases self.carts.len() - j,
        {
            if self.carts[j].id == id {
                proof {
                    lemma_unique_idx_cart(s, id as int, j as int);
                }
                return Some(j);
            }
            j = j + 1;
        }
        None
    }

    /// The order row with the given id, if any.
    pub fn order_by_id(&self, id: i32) -> (r: Option<&OrderEntity>)
        requires
            self.wf(),
        ensures
            match r {
                Some(o) => has_order(self.orders_v(), id as int) && o@ == self.orders_v()[
                    order_idx(self.orders_v(), id as int)
                ],
                None => !has_order(self.orders_v(), id as int),
            },
    {
        match self.find_order(id) {
            Some(j) => Some(&self.orders[j]),
            None => None,
        }
    }

    /// The payment row with the given id, if any.
    pub fn payment_by_id(&self, id: u128) -> (r: Option<&PaymentEntity>)
        requires
            self.wf(),
        ensures
            match r {
                Some(p) => has_payment(self.payments_v(), id as int) && p@ == self.payments_v()[
                    payment_idx(self.payments_v(), id as int)
                ],
                None => !has_payment(self.payments_v(), id as int),
            },
    {
        match self.find_payment(id) {
            Some(j) => Some(&self.payments[j]),
            None => None,
        }
    }

    pub fn outbox_len(&self) -> (r: usize)
        ensures
            r == self.outbox_v().len(),
    {
        self.outbox.len()
    }

    /// The outbox row at a position, in creation order.
    pub fn outbox_at(&self, i: usize) -> (r: &OutboxEntry)
        requires
            i < self.outbox_v().len(),
        ensures
            r@ == self.outbox_v()[i as int],
    {
        &self.outbox[i]
    }

    /// Index of the cart-item row with the given key pair, if any.
    pub fn find_item(&self, cart_id: i32, product_id: i32) -> (r: Option<usize>)
        requires
            self.wf(),
        ensures
            match r {
                Some(j) => has_item(self.items_v(), cart_id as int, product_id as int) && j
                    < self.items_v().len() && item_idx(
                    self.items_v(),
                    cart_id as int,
                    product_id as int,
                ) == j as int,
                None => !has_item(self.items_v(), cart_id as int, product_id as int),
            },
    {
        let ghost s = self.items_v();
        let mut j: usize = 0;
        while j < self.cart_items.len()
            invariant
                self.wf(),
                s == self.items_v(),
                j <= self.cart_items.len(),
                forall|k: int|
                    0 <= k < j ==> !((#[trigger] s[k]).cart_id == cart_id as int && s[k].product_id
                        == product_id as int),
            decreases self.cart_items.len() - j,
        {
            if self.cart_items[j].cart_id == cart_id && self.cart_items[j].product_id
                == product_id {
                proof {
                    lemma_unique_idx_item(s, cart_id as int, product_id as int, j as int);
                }
                return Some(j);
            }
            j = j + 1;
        }
        None
    }

    /// The line items of a cart, in store position: the order's item view
    /// is read live from the cart rows it references.
    pub fn items_for_cart(&self, cart_id: i32) -> (r: Vec<CartItemEntity>)
        ensures
            r@.map_values(|it: CartItemEntity| it@) == items_of_cart(
                self.items_v(),
                cart_id as int,
            ),
    {
        let ghost s = self.items_v();
        let ghost pred = |it: CartItemV| it.cart_id == cart_id as int;
        let mut r: Vec<CartItemEntity> = Vec::new();
        proof {
            assert(s.subrange(0, 0).filter(pred) =~= Seq::<CartItemV>::empty());
            assert(r@.map_values(|it: CartItemEntity| it@) =~= Seq::<CartItemV>::empty());
        }
        let mut j: usize = 0;
        while j < self.cart_items.len()
            invariant
                s == self.items_v(),
                pred == (|it: CartItemV| it.cart_id == cart_id as int),
                j <= self.cart_items.len(),
                r@.map_values(|it: CartItemEntity| it@) == s.subrange(0, j as int).filter(pred),
            decreases self.cart_items.len() - j,
        {
            let ghost pre = s.subrange(0, j as int);
            let ghost post = s.subrange(0, j as int + 1);
            proof {
                assert(post =~= pre + seq![s[j as int]]);
                Seq::<CartItemV>::filter_distributes_over_add(pre, seq![s[j as int]], pred);
                lemma_filter_singleton(s[j as int], pred);
            }
            if self.cart_items[j].cart_id == cart_id {
                r.push(self.cart_items[j]);
                proof {
                    assert(s[j as int] == self.cart_items@[j as int]@);
                    assert(pred(s[j as int]));
                    assert(r@.map_values(|it: CartItemEntity| it@) =~= pre.filter(pred).push(
                        s[j as int],
                    ));
                    assert(seq![s[j as int]].filter(pred) =~= seq![s[j as int]]);
                }
            } else {
                proof {
                    assert(s[j as int] == self.cart_items@[j as int]@);
                    assert(!pred(s[j as int]));
                    assert(seq![s[j as int]].filter(pred) =~= Seq::<CartItemV>::empty());
                    assert(post.filter(pred) =~= pre.filter(pred));
                }
            }
            j = j + 1;
        }
        proof {
            assert(s.subrange(0, s.len() as int) =~= s);
        }
        r
    }

    /// The transactional outbox writer: appends the event row to the same
    /// atomic unit as the caller's state mutation.  Nothing else of the
    /// store is touched, so the event row becomes visible exactly when the
    /// surrounding operation commits as a whole.
    pub fn record_event(&mut self, event_type: EventType, payload: Vec<u8>, now: i64) -> (r: i64)
        requires
            old(self).wf(),
            old(self).next_outbox_id < i64::MAX,
        ensures
            final(self).wf(),
            r == old(self).next_outbox_id,
            final(self).outbox_v() == old(self).outbox_v().push(
                OutboxEntryV {
                    id: old(self).next_outbox_id as int,
                    event_type,
                    payload: payload@,
                    status: OutboxStatus::Pending,
                    created_at: now as int,
                    updated_at: now as int,
                },
            ),
            final(self).next_outbox_id == old(self).next_outbox_id + 1,
            final(self).carts == old(self).carts,
            final(self).cart_items == old(self).cart_items,
            final(self).orders == old(self).orders,
            final(self).payments == old(self).payments,
            final(self).next_cart_id == old(self).next_cart_id,
            final(self).next_order_id == old(self).next_order_id,
            final(self).next_payment_id == old(self).next_payment_id,
    {
        let id = self.next_outbox_id;
        let ghost prev = self.outbox_v();
        let entry = OutboxEntry {
            id,
            event_type,
            payload,
            status: OutboxStatus::Pending,
            created_at: now,
            updated_at: now,
        };
        let ghost entry_v = entry@;
        self.outbox.push(entry);
        self.next_outbox_id = id + 1;
        proof {
            assert(self.outbox_v() =~= prev.push(entry_v));
            assert forall|i: int, j: int|
                0 <= i < j < self.outbox_v().len() implies #[trigger] self.outbox_v()[i].id
                < #[trigger] self.outbox_v()[j].id by {
                if j < prev.len() as int {
                    assert(prev[i].id < prev[j].id);
                } else {
                    assert(prev[i].id < id as int);
                }
            }
        }
        id
    }

    /// The relay's mark: a conditional update that sets a pending entry
    /// `Published`, and reports whether a row matched.
    pub fn mark_published(&mut self, entry_id: i64, now: i64) -> (r: bool)
        requires
            old(self).wf(),
        ensures
            final(self).wf(),
            r == (has_outbox(old(self).outbox_v(), entry_id as int) && old(self).outbox_v()[
                outbox_idx(old(self).outbox_v(), entry_id as int)
            ].status == OutboxStatus::Pending),
            r ==> final(self).outbox_v() == old(self).outbox_v().update(
                outbox_idx(old(self).outbox_v(), entry_id as int),
                OutboxEntryV {
                    status: OutboxStatus::Published,
                    updated_at: now as int,
                    ..old(self).outbox_v()[outbox_idx(old(self).outbox_v(), entry_id as int)]
                },
            ),
            !r ==> *final(self) == *old(self),
            final(self).carts == old(self).carts,
            final(self).cart_items == old(self).cart_items,
            final(self).orders == old(self).orders,
            final(self).payments == old(self).payments,
            final(self).next_outbox_id == old(self).next_outbox_id,
    {
        let ghost s = self.outbox_v();
        let mut j: usize = 0;
        while j < self.outbox.len()
            invariant
                self.wf(),
                *self == *old(self),
                s == self.outbox_v(),
                j <= self.outbox.len(),
                forall|k: int| 0 <= k < j ==> (#[trigger] s[k]).id != entry_id as int,
            decreases self.outbox.len() - j,
        {
            if self.outbox[j].id == entry_id {
                proof {
                    lemma_unique_idx_outbox(s, entry_id as int, j as int);
                }
                if matches!(self.outbox[j].status, OutboxStatus::Pending) {
                    let updated = OutboxEntry {
                        id: self.outbox[j].id,
                        event_type: self.outbox[j].event_type,
                        payload: crate::models::copy_bytes(&self.outbox[j].payload),
                        status: OutboxStatus::Published,
                        created_at: self.outbox[j].created_at,
                        updated_at: now,
                    };
                    let ghost uv = updated@;
                    self.outbox.set(j, updated);
                    proof {
                        assert(self.outbox_v() =~= s.update(j as int, uv));
                        lemma_update_keeps_outbox_order(s, j as int, uv);
                    }
                    return true;
                } else {
                    return false;
                }
            }
            j = j + 1;
        }
        false
    }
}

// Uniqueness pins the chosen index to any found index.

pub proof fn lemma_unique_idx_order(s: Seq<OrderV>, id: int, j: int)
    requires
        unique_order_ids(s),
        0 <= j < s.len(),
        s[j].id == id,
    ensures
        has_order(s, id),
        order_idx(s, id) == j,
{
    assert(has_order(s, id));
    let k = order_idx(s, id);
    if k != j {
        if k < j {
            assert(s[k].id != s[j].id);
        } else {
            assert(s[j].id != s[k].id);
        }
    }
}

pub proof fn lemma_unique_idx_payment(s: Seq<PaymentV>, id: int, j: int)
    requires
        unique_payment_ids(s),
        0 <= j < s.len(),
        s[j].id == id,
    ensures
        has_payment(s, id),
        payment_idx(s, id) == j,
{
    assert(has_payment(s, id));
    let k = payment_idx(s, id);
    if k != j {
        if k < j {
            assert(s[k].id != s[j].id);
        } else {
            assert(s[j].id != s[k].id);
        }
    }
}

pub proof fn lemma_unique_idx_cart(s: Seq<CartV>, id: int, j: int)
    requires
        unique_cart_ids(s),
        0 <= j < s.len(),
        s[j].id == id,
    ensures
        has_cart(s, id),
        cart_idx(s, id) == j,
{
    assert(has_cart(s, id));
    let k = cart_idx(s, id);
    if k != j {
        if k < j {
            assert(s[k].id != s[j].id);
        } else {
            assert(s[j].id != s[k].id);
        }
    }
}

pub proof fn lemma_unique_idx_outbox(s: Seq<OutboxEntryV>, id: int, j: int)
    requires
        increasing_outbox_ids(s),
        0 <= j < s.len(),
        s[j].id == id,
    ensures
        has_outbox(s, id),
        outbox_idx(s, id) == j,
{
    assert(has_outbox(s, id));
    let k = outbox_idx(s, id);
    if k != j {
        if k < j {
            assert(s[k].id != s[j].id);
        } else {
            assert(s[j].id != s[k].id);
        }
    }
}

/// Replacing a row with one of the same identity keeps identities unique.
pub proof fn lemma_update_keeps_unique_order(s: Seq<OrderV>, j: int, o: OrderV)
    requires
        unique_order_ids(s),
        0 <= j < s.len(),
        o.id == s[j].id,
    ensures
        unique_order_ids(s.update(j, o)),
{
    let t = s.update(j, o);
    assert forall|i: int, k: int|
        0 <= i < k < t.len() implies #[trigger] t[i].id != #[trigger] t[k].id by {
        assert(s[i].id != s[k].id);
    }
}

/// Replacing a row with one of the same identity keeps the rows in
/// creation order.
pub proof fn lemma_update_keeps_outbox_order(s: Seq<OutboxEntryV>, j: int, o: OutboxEntryV)
    requires
        increasing_outbox_ids(s),
        0 <= j < s.len(),
        o.id == s[j].id,
    ensures
        increasing_outbox_ids(s.update(j, o)),
{
    let t = s.update(j, o);
    assert forall|i: int, k: int|
        0 <= i < k < t.len() implies #[trigger] t[i].id < #[trigger] t[k].id by {
        assert(s[i].id < s[k].id);
    }
}

/// Filtering a one-row sequence keeps the row exactly when it satisfies
/// the predicate.
pub proof fn lemma_filter_singleton<A>(x: A, pred: spec_fn(A) -> bool)
    ensures
        pred(x) ==> seq![x].filter(pred) == seq![x],
        !pred(x) ==> seq![x].filter(pred) == Seq::<A>::empty(),
{
    reveal(Seq::filter);
    let s = seq![x];
    assert(s.drop_last() =~= Seq::<A>::empty());
    assert(Seq::<A>::empty().filter(pred) =~= Seq::<A>::empty());
    if pred(x) {
        assert(s.filter(pred) =~= seq![x]);
    } else {
        assert(s.filter(pred) =~= Seq::<A>::empty());
    }
}

/// Replacing a row with one of the same identity keeps identities unique.
pub proof fn lemma_update_keeps_unique_cart(s: Seq<CartV>, j: int, c: CartV)
    requires
        unique_cart_ids(s),
        0 <= j < s.len(),
        c.id == s[j].id,
    ensures
        unique_cart_ids(s.update(j, c)),
{
    let t = s.update(j, c);
    assert forall|i: int, k: int|
        0 <= i < k < t.len() implies #[trigger] t[i].id != #[trigger] t[k].id by {
        assert(s[i].id != s[k].id);
    }
}

pub proof fn lemma_unique_idx_item(s: Seq<CartItemV>, cart_id: int, product_id: int, j: int)
    requires
        unique_item_keys(s),
        0 <= j < s.len(),
        s[j].cart_id == cart_id,
        s[j].product_id == product_id,
    ensures
        has_item(s, cart_id, product_id),
        item_idx(s, cart_id, product_id) == j,
{
    assert(has_item(s, cart_id, product_id));
    let k = item_idx(s, cart_id, product_id);
    if k != j {
        if k < j {
            assert(s[k].cart_id == s[j].cart_id ==> !(s[k].cart_id == s[j].cart_id
                && s[k].product_id == s[j].product_id));
        } else {
            assert(s[j].cart_id == s[k].cart_id ==> !(s[j].cart_id == s[k].cart_id
                && s[j].product_id == s[k].product_id));
        }
    }
}

/// Replacing a row with one of the same key keeps the keys unique.
pub proof fn lemma_update_keeps_unique_item(s: Seq<CartItemV>, j: int, it: CartItemV)
    requires
        unique_item_keys(s),
        0 <= j < s.len(),
        it.cart_id == s[j].cart_id,
        it.product_id == s[j].product_id,
    ensures
        unique_item_keys(s.update(j, it)),
{
    let t = s.update(j, it);
    assert forall|i: int, k: int|
        0 <= i < k < t.len() implies !((#[trigger] t[i].cart_id) == (#[trigger] t[k].cart_id)
        && t[i].product_id == t[k].product_id) by {
        assert(!(s[i].cart_id == s[k].cart_id && s[i].product_id == s[k].product_id));
    }
}

/// What a filter keeps of a table with unique keys still has unique keys,
/// and every row it keeps stands somewhere in the table.
pub proof fn lemma_filter_unique_pairs(s: Seq<CartItemV>, pred: spec_fn(CartItemV) -> bool)
    requires
        unique_item_keys(s),
    ensures
        unique_item_keys(s.filter(pred)),
        forall|i: int|
            0 <= i < s.filter(pred).len() ==> exists|k: int|
                0 <= k < s.len() && s[k] == #[trigger] s.filter(pred)[i],
    decreases s.len(),
{
    reveal(Seq::filter);
    if s.len() == 0 {
    } else {
        let s0 = s.drop_last();
        let x = s.last();
        assert(unique_item_keys(s0)) by {
            assert forall|i: int, k: int|
                0 <= i < k < s0.len() implies !((#[trigger] s0[i].cart_id) == (
            #[trigger] s0[k].cart_id) && s0[i].product_id == s0[k].product_id) by {
                assert(!(s[i].cart_id == s[k].cart_id && s[i].product_id == s[k].product_id));
            }
        }
        lemma_filter_unique_pairs(s0, pred);
        let f0 = s0.filter(pred);
        if pred(x) {
            assert(s.filter(pred) == f0.push(x));
            assert forall|i: int|
                0 <= i < s.filter(pred).len() implies exists|k: int|
                    0 <= k < s.len() && s[k] == #[trigger] s.filter(pred)[i] by {
                if i < f0.len() {
                    let k = choose|k: int| 0 <= k < s0.len() && s0[k] == f0[i];
                    assert(s[k] == s.filter(pred)[i]);
                } else {
                    assert(s[s.len() - 1] == s.filter(pred)[i]);
                }
            }
            assert forall|i: int, k: int|
                0 <= i < k < s.filter(pred).len() implies !((#[trigger] s.filter(
                pred,
            )[i].cart_id) == (#[trigger] s.filter(pred)[k].cart_id) && s.filter(pred)[i].product_id
                == s.filter(pred)[k].product_id) by {
                if k < f0.len() {
                    assert(!(f0[i].cart_id == f0[k].cart_id && f0[i].product_id
                        == f0[k].product_id));
                } else {
                    let ki = choose|m: int| 0 <= m < s0.len() && s0[m] == f0[i];
                    assert(s[ki] == f0[i]);
                    assert(!(s[ki].cart_id == s[s.len() - 1].cart_id && s[ki].product_id == s[
                        s.len() - 1].product_id));
                }
            }
        } else {
            assert(s.filter(pred) == f0);
            assert forall|i: int|
                0 <= i < s.filter(pred).len() implies exists|k: int|
                    0 <= k < s.len() && s[k] == #[trigger] s.filter(pred)[i] by {
                let k = choose|k: int| 0 <= k < s0.len() && s0[k] == f0[i];
                assert(s[k] == s.filter(pred)[i]);
            }
        }
    }
}

/// Replacing a row with one of the same identity keeps identities unique.
pub proof fn lemma_update_keeps_unique_payment(s: Seq<PaymentV>, j: int, p: PaymentV)
    requires
        unique_payment_ids(s),
        0 <= j < s.len(),
        p.id == s[j].id,
    ensures
        unique_payment_ids(s.update(j, p)),
{
    let t = s.update(j, p);
    assert forall|i: int, k: int|
        0 <= i < k < t.len() implies #[trigger] t[i].id != #[trigger] t[k].id by {
        assert(s[i].id != s[k].id);
    }
}

} // verus!
