//! Patient-facing cart operations: a cart is a mutable shopping basket
//! until it is converted into an order.
use vstd::prelude::*;

use crate::models::{
    CartEntity, CartItemEntity, CartItemV, CartV, CreateCartEntity, CreateCartItemEntity,
};
use crate::pricing::{fits_i64, line_total, total_cents, PriceList};
use crate::store::{
    cart_idx, has_cart, has_item, item_idx, items_of_cart, lemma_filter_singleton,
    lemma_filter_unique_pairs, lemma_update_keeps_unique_cart, lemma_update_keeps_unique_item,
    Store,
};
use crate::AppError;

verus! {

/// Whether a request names a product.
pub open spec fn req_has_product(reqs: Seq<(i32, i32)>, product_id: int) -> bool {
    exists|i: int| 0 <= i < reqs.len() && (#[trigger] reqs[i]).0 as int == product_id
}

/// Whether a request names no product twice.
pub open spec fn distinct_products(reqs: Seq<(i32, i32)>) -> bool {
    forall|i: int, j: int| #![trigger reqs[i].0, reqs[j].0]
        0 <= i < j < reqs.len() ==> reqs[i].0 != reqs[j].0
}

/// The requested line items that survive creation: a non-positive
/// quantity is dropped.
pub open spec fn kept_reqs(reqs: Seq<(i32, i32)>) -> Seq<(i32, i32)> {
    reqs.filter(|p: (i32, i32)| p.1 > 0)
}

/// The rows a cart update deletes: rows of the cart whose product the
/// request no longer names.
pub open spec fn removed_items(s: Seq<CartItemV>, cart_id: int, reqs: Seq<(i32, i32)>) -> Seq<
    CartItemV,
> {
    s.filter(|it: CartItemV| it.cart_id == cart_id && !req_has_product(reqs, it.product_id))
}

/// The rows a cart update keeps before its upserts.
pub open spec fn surviving_items(s: Seq<CartItemV>, cart_id: int, reqs: Seq<(i32, i32)>) -> Seq<
    CartItemV,
> {
    s.filter(|it: CartItemV| !(it.cart_id == cart_id && !req_has_product(reqs, it.product_id)))
}

/// One upsert of a cart update: the existing row's quantity is replaced,
/// or a fresh row is appended.
pub open spec fn upsert_one(
    s: Seq<CartItemV>,
    cart_id: int,
    product_id: int,
    quantity: int,
    now: int,
) -> Seq<CartItemV> {
    if has_item(s, cart_id, product_id) {
        s.update(
            item_idx(s, cart_id, product_id),
            CartItemV { quantity, ..s[item_idx(s, cart_id, product_id)] },
        )
    } else {
        s.push(
            CartItemV { cart_id, product_id, quantity, created_at: now, updated_at: now },
        )
    }
}

/// The requested rows upserted in request order; a product named twice
/// ends at its later quantity.
pub open spec fn upsert_all(
    s: Seq<CartItemV>,
    cart_id: int,
    reqs: Seq<(i32, i32)>,
    now: int,
) -> Seq<CartItemV>
    decreases reqs.len(),
{
    if reqs.len() == 0 {
        s
    } else {
        upsert_one(
            upsert_all(s, cart_id, reqs.drop_last(), now),
            cart_id,
            reqs.last().0 as int,
            reqs.last().1 as int,
            now,
        )
    }
}

/// Whether a request names a product, decided.
fn req_contains(reqs: &Vec<(i32, i32)>, product_id: i32) -> (r: bool)
    ensures
        r == req_has_product(reqs@, product_id as int),
{
    let mut i: usize = 0;
    while i < reqs.len()
        invariant
            i <= reqs@.len(),
            forall|k: int| 0 <= k < i ==> (#[trigger] reqs@[k]).0 != product_id,
        decreases reqs@.len() - i,
    {
        if reqs[i].0 == product_id {
            return true;
        }
        i = i + 1;
    }
    false
}

/// Whether a request names no product twice, decided.
fn distinct_products_x(reqs: &Vec<(i32, i32)>) -> (r: bool)
    ensures
        r == distinct_products(reqs@),
{
    let mut i: usize = 0;
    while i < reqs.len()
        invariant
            i <= reqs@.len(),
            forall|a: int, b: int| #![trigger reqs@[a].0, reqs@[b].0]
                0 <= a < b < reqs@.len() && a < i ==> reqs@[a].0 != reqs@[b].0,
        decreases reqs@.len() - i,
    {
        let mut j: usize = i + 1;
        while j < reqs.len()
            invariant
                i < j || i + 1 == j,
                i < reqs@.len(),
                j <= reqs@.len(),
                i + 1 <= j,
                forall|b: int| i < b < j ==> reqs@[i as int].0 != (#[trigger] reqs@[b]).0,
            decreases reqs@.len() - j,
        {
            if reqs[i].0 == reqs[j].0 {
                return false;
            }
            j = j + 1;
        }
        i = i + 1;
    }
    true
}

/// A freshly created cart with the rows created for it.
pub struct CreateCartRes {
    pub cart: CartEntity,
    pub cart_items: Vec<CartItemEntity>,
}

/// Creates a cart holding the requested line items.
///
/// Items with a non-positive quantity are dropped; the cart row and all
/// its item rows commit as one atomic unit.  A request naming one product
/// twice would violate the item table's key and aborts the whole
/// transaction, leaving nothing behind.
pub fn create_cart(store: &mut Store, patient_id: i32, reqs: &Vec<(i32, i32)>, now: i64) -> (r:
    Result<CreateCartRes, AppError>)
    requires
        old(store).wf(),
        old(store).next_cart_id < i32::MAX,
    ensures
        final(store).wf(),
        match r {
            Err(e) => {
                &&& e == AppError::TransactionFailed
                &&& !distinct_products(kept_reqs(reqs@))
                &&& *final(store) == *old(store)
            },
            Ok(res) => {
                let kept = kept_reqs(reqs@);
                let id = old(store).next_cart_id as int;
                let rows = kept.map_values(
                    |p: (i32, i32)|
                        CartItemV {
                            cart_id: id,
                            product_id: p.0 as int,
                            quantity: p.1 as int,
                            created_at: now as int,
                            updated_at: now as int,
                        },
                );
                &&& distinct_products(kept)
                &&& res.cart@ == CartV {
                    id,
                    patient_id: patient_id as int,
                    created_at: now as int,
                    updated_at: now as int,
                }
                &&& res.cart_items@.map_values(|it: CartItemEntity| it@) == rows
                &&& final(store).carts_v() == old(store).carts_v().push(res.cart@)
                &&& final(store).items_v() == old(store).items_v() + rows
                &&& final(store).next_cart_id == old(store).next_cart_id + 1
                &&& final(store).orders == old(store).orders
                &&& final(store).payments == old(store).payments
                &&& final(store).outbox == old(store).outbox
                &&& final(store).next_order_id == old(store).next_order_id
                &&& final(store).next_outbox_id == old(store).next_outbox_id
                &&& final(store).next_payment_id == old(store).next_payment_id
            },
        },
{
    let ghost keep_pred = |p: (i32, i32)| p.1 > 0;
    let mut kept: Vec<(i32, i32)> = Vec::new();
    proof {
        assert(reqs@.subrange(0, 0).filter(keep_pred) =~= Seq::<(i32, i32)>::empty());
        assert(kept@ =~= Seq::<(i32, i32)>::empty());
    }
    let mut i: usize = 0;
    while i < reqs.len()
        invariant
            keep_pred == (|p: (i32, i32)| p.1 > 0),
            i <= reqs@.len(),
            kept@ == reqs@.subrange(0, i as int).filter(keep_pred),
        decreases reqs@.len() - i,
    {
        let ghost pre = reqs@.subrange(0, i as int);
        proof {
            assert(reqs@.subrange(0, i as int + 1) =~= pre + seq![reqs@[i as int]]);
            Seq::<(i32, i32)>::filter_distributes_over_add(pre, seq![reqs@[i as int]], keep_pred);
            lemma_filter_singleton(reqs@[i as int], keep_pred);
        }
        if reqs[i].1 > 0 {
            kept.push(reqs[i]);
        }
        proof {
            assert(kept@ =~= reqs@.subrange(0, i as int + 1).filter(keep_pred));
        }
        i = i + 1;
    }
    proof {
        assert(reqs@.subrange(0, reqs@.len() as int) =~= reqs@);
    }
    if !distinct_products_x(&kept) {
        return Err(AppError::TransactionFailed);
    }
    let id = store.next_cart_id;
    let insert = CreateCartEntity { patient_id };
    let cart = CartEntity { id, patient_id: insert.patient_id, created_at: now, updated_at: now };
    let ghost cs = store.carts_v();
    store.carts.push(cart);
    store.next_cart_id = id + 1;
    proof {
        assert(store.carts_v() =~= cs.push(cart@));
        assert forall|a: int, b: int|
            0 <= a < b < store.carts_v().len() implies #[trigger] store.carts_v()[a].id
            != #[trigger] store.carts_v()[b].id by {
            if b < cs.len() as int {
                assert(cs[a].id != cs[b].id);
            } else {
                assert(cs[a].id < id as int);
            }
        }
    }
    let ghost base = store.items_v();
    let ghost rows = kept@.map_values(
        |p: (i32, i32)|
            CartItemV {
                cart_id: id as int,
                product_id: p.0 as int,
                quantity: p.1 as int,
                created_at: now as int,
                updated_at: now as int,
            },
    );
    let mut created: Vec<CartItemEntity> = Vec::new();
    let mut k: usize = 0;
    proof {
        assert(base + rows.subrange(0, 0) =~= base);
        assert(created@.map_values(|it: CartItemEntity| it@) =~= rows.subrange(0, 0));
    }
    while k < kept.len()
        invariant
            store.wf(),
            k <= kept@.len(),
            id < store.next_cart_id,
            distinct_products(kept@),
            rows == kept@.map_values(
                |p: (i32, i32)|
                    CartItemV {
                        cart_id: id as int,
                        product_id: p.0 as int,
                        quantity: p.1 as int,
                        created_at: now as int,
                        updated_at: now as int,
                    },
            ),
            forall|m: int|
                0 <= m < base.len() ==> (#[trigger] base[m]).cart_id < id as int,
            store.items_v() == base + rows.subrange(0, k as int),
            created@.map_values(|it: CartItemEntity| it@) == rows.subrange(0, k as int),
            store.orders == old(store).orders,
            store.payments == old(store).payments,
            store.outbox == old(store).outbox,
            store.next_cart_id == id + 1,
            store.next_order_id == old(store).next_order_id,
            store.next_outbox_id == old(store).next_outbox_id,
            store.next_payment_id == old(store).next_payment_id,
            store.carts_v() == cs.push(
                CartV {
                    id: id as int,
                    patient_id: patient_id as int,
                    created_at: now as int,
                    updated_at: now as int,
                },
            ),
        decreases kept@.len() - k,
    {
        let insert = CreateCartItemEntity { cart_id: id, product_id: kept[k].0, quantity: kept[k].1 };
        let row = CartItemEntity {
            cart_id: insert.cart_id,
            product_id: insert.product_id,
            quantity: insert.quantity,
            created_at: now,
            updated_at: now,
        };
        let ghost s0 = store.items_v();
        store.cart_items.push(row);
        created.push(row);
        proof {
            assert(store.items_v() =~= s0.push(row@));
            assert(row@ == rows[k as int]);
            assert(store.items_v() =~= base + rows.subrange(0, k as int + 1)) by {
                assert(rows.subrange(0, k as int + 1) =~= rows.subrange(0, k as int).push(
                    rows[k as int],
                ));
                assert(base + rows.subrange(0, k as int).push(rows[k as int]) =~= (base
                    + rows.subrange(0, k as int)).push(rows[k as int]));
            }
            assert(created@.map_values(|it: CartItemEntity| it@) =~= rows.subrange(
                0,
                k as int + 1,
            ));
            assert forall|a: int, b: int|
                0 <= a < b < store.items_v().len() implies !((#[trigger] store.items_v()[
            a].cart_id) == (#[trigger] store.items_v()[b].cart_id) && store.items_v()[a].product_id
                == store.items_v()[b].product_id) by {
                let t = store.items_v();
                if b < s0.len() as int {
                    assert(!(s0[a].cart_id == s0[b].cart_id && s0[a].product_id
                        == s0[b].product_id));
                } else {
                    if a < base.len() as int {
                        assert(base[a].cart_id < id as int);
                    } else {
                        let ai = a - base.len() as int;
                        assert(t[a] == rows[ai]);
                        assert(kept@[ai].0 != kept@[k as int].0);
                    }
                }
            }
        }
        k = k + 1;
    }
    proof {
        assert(rows.subrange(0, rows.len() as int) =~= rows);
    }
    Ok(CreateCartRes { cart, cart_items: created })
}

/// The rows a cart update wrote, with the cart as it stands after.
pub struct UpdateCartRes {
    pub deleted_items: Vec<CartItemEntity>,
    pub updated_items: Vec<CartItemEntity>,
    pub updated_cart: CartEntity,
}

/// Replaces a cart's contents with the requested line items.
///
/// Rows of products the request no longer names are deleted; each
/// requested item is upserted — the existing row's quantity is replaced,
/// or a fresh row is created; the cart's update time is touched.  All of
/// it commits as one atomic unit.  A cart that does not exist or belongs
/// to another patient is reported not found and nothing is written.
pub fn update_cart(
    store: &mut Store,
    cart_id: i32,
    patient_id: i32,
    reqs: &Vec<(i32, i32)>,
    now: i64,
) -> (r: Result<UpdateCartRes, AppError>)
    requires
        old(store).wf(),
    ensures
        final(store).wf(),
        ({
            let cs = old(store).carts_v();
            let ci = cart_idx(cs, cart_id as int);
            let owned = has_cart(cs, cart_id as int) && cs[ci].patient_id == patient_id as int;
            match r {
                Err(e) => e == AppError::NotFound && !owned && *final(store) == *old(store),
                Ok(res) => {
                    let survivors = surviving_items(old(store).items_v(), cart_id as int, reqs@);
                    let table = upsert_all(survivors, cart_id as int, reqs@, now as int);
                    &&& owned
                    &&& final(store).items_v() == table
                    &&& res.deleted_items@.map_values(|it: CartItemEntity| it@) == removed_items(
                        old(store).items_v(),
                        cart_id as int,
                        reqs@,
                    )
                    &&& res.updated_items@.map_values(|it: CartItemEntity| it@) == items_of_cart(
                        table,
                        cart_id as int,
                    )
                    &&& res.updated_cart@ == CartV { updated_at: now as int, ..cs[ci] }
                    &&& final(store).carts_v() == cs.update(ci, res.updated_cart@)
                    &&& final(store).orders == old(store).orders
                    &&& final(store).payments == old(store).payments
                    &&& final(store).outbox == old(store).outbox
                    &&& final(store).next_cart_id == old(store).next_cart_id
                    &&& final(store).next_order_id == old(store).next_order_id
                    &&& final(store).next_outbox_id == old(store).next_outbox_id
                    &&& final(store).next_payment_id == old(store).next_payment_id
                },
            }
        }),
{
    let ghost cs = store.carts_v();
    let ci = match store.find_cart(cart_id) {
        Some(ci) => ci,
        None => {
            return Err(AppError::NotFound);
        },
    };
    if store.carts[ci].patient_id != patient_id {
        return Err(AppError::NotFound);
    }
    let ghost s0 = store.items_v();
    let ghost dp = |it: CartItemV|
        it.cart_id == cart_id as int && !req_has_product(reqs@, it.product_id);
    let ghost kp = |it: CartItemV|
        !(it.cart_id == cart_id as int && !req_has_product(reqs@, it.product_id));
    let mut deleted: Vec<CartItemEntity> = Vec::new();
    let mut survivors: Vec<CartItemEntity> = Vec::new();
    proof {
        assert(s0.subrange(0, 0).filter(dp) =~= Seq::<CartItemV>::empty());
        assert(s0.subrange(0, 0).filter(kp) =~= Seq::<CartItemV>::empty());
        assert(deleted@.map_values(|it: CartItemEntity| it@) =~= Seq::<CartItemV>::empty());
        assert(survivors@.map_values(|it: CartItemEntity| it@) =~= Seq::<CartItemV>::empty());
    }
    let mut i: usize = 0;
    while i < store.cart_items.len()
        invariant
            *store == *old(store),
            s0 == store.items_v(),
            dp == (|it: CartItemV|
                it.cart_id == cart_id as int && !req_has_product(reqs@, it.product_id)),
            kp == (|it: CartItemV|
                !(it.cart_id == cart_id as int && !req_has_product(reqs@, it.product_id))),
            i <= store.cart_items.len(),
            deleted@.map_values(|it: CartItemEntity| it@) == s0.subrange(0, i as int).filter(dp),
            survivors@.map_values(|it: CartItemEntity| it@) == s0.subrange(0, i as int).filter(kp),
        decreases store.cart_items.len() - i,
    {
        let ghost pre = s0.subrange(0, i as int);
        proof {
            assert(s0.subrange(0, i as int + 1) =~= pre + seq![s0[i as int]]);
            Seq::<CartItemV>::filter_distributes_over_add(pre, seq![s0[i as int]], dp);
            Seq::<CartItemV>::filter_distributes_over_add(pre, seq![s0[i as int]], kp);
            lemma_filter_singleton(s0[i as int], dp);
            lemma_filter_singleton(s0[i as int], kp);
            assert(s0[i as int] == store.cart_items@[i as int]@);
        }
        let it = store.cart_items[i];
        if it.cart_id == cart_id && !req_contains(reqs, it.product_id) {
            deleted.push(it);
            proof {
                assert(dp(s0[i as int]));
            }
        } else {
            survivors.push(it);
            proof {
                assert(kp(s0[i as int]));
            }
        }
        proof {
            assert(deleted@.map_values(|it2: CartItemEntity| it2@) =~= s0.subrange(
                0,
                i as int + 1,
            ).filter(dp));
            assert(survivors@.map_values(|it2: CartItemEntity| it2@) =~= s0.subrange(
                0,
                i as int + 1,
            ).filter(kp));
        }
        i = i + 1;
    }
    proof {
        assert(s0.subrange(0, s0.len() as int) =~= s0);
    }
    store.cart_items = survivors;
    proof {
        lemma_filter_unique_pairs(s0, kp);
        let t = store.items_v();
        assert(t == s0.filter(kp));
        assert forall|m: int|
            0 <= m < t.len() implies (#[trigger] t[m]).cart_id < store.next_cart_id as int by {
            let k = choose|k: int| 0 <= k < s0.len() && s0[k] == t[m];
            assert(s0[k].cart_id < old(store).next_cart_id as int);
        }
    }
    let ghost surv = store.items_v();
    let mut q: usize = 0;
    while q < reqs.len()
        invariant
            store.wf(),
            q <= reqs@.len(),
            cart_id < store.next_cart_id,
            store.items_v() == upsert_all(surv, cart_id as int, reqs@.subrange(0, q as int), now as int),
            store.carts == old(store).carts,
            store.orders == old(store).orders,
            store.payments == old(store).payments,
            store.outbox == old(store).outbox,
            store.next_cart_id == old(store).next_cart_id,
            store.next_order_id == old(store).next_order_id,
            store.next_outbox_id == old(store).next_outbox_id,
            store.next_payment_id == old(store).next_payment_id,
        decreases reqs@.len() - q,
    {
        let ghost cur = store.items_v();
        proof {
            assert(reqs@.subrange(0, q as int + 1).drop_last() =~= reqs@.subrange(0, q as int));
            assert(reqs@.subrange(0, q as int + 1).last() == reqs@[q as int]);
        }
        let (product_id, quantity) = reqs[q];
        match store.find_item(cart_id, product_id) {
            Some(j) => {
                let mut row = store.cart_items[j];
                row.quantity = quantity;
                let ghost rv = row@;
                store.cart_items.set(j, row);
                proof {
                    assert(store.items_v() =~= cur.update(j as int, rv));
                    assert(rv == CartItemV {
                        quantity: quantity as int,
                        ..cur[item_idx(cur, cart_id as int, product_id as int)]
                    });
                    lemma_update_keeps_unique_item(cur, j as int, rv);
                    assert forall|m: int|
                        0 <= m < store.items_v().len() implies (#[trigger] store.items_v()[
                    m]).cart_id < store.next_cart_id as int by {
                        assert(cur[m].cart_id < store.next_cart_id as int);
                    }
                }
            },
            None => {
                let row = CartItemEntity {
                    cart_id,
                    product_id,
                    quantity,
                    created_at: now,
                    updated_at: now,
                };
                store.cart_items.push(row);
                proof {
                    assert(store.items_v() =~= cur.push(row@));
                    let t = store.items_v();
                    assert forall|a: int, b: int|
                        0 <= a < b < t.len() implies !((#[trigger] t[a].cart_id) == (
                    #[trigger] t[b].cart_id) && t[a].product_id == t[b].product_id) by {
                        if b < cur.len() as int {
                            assert(!(cur[a].cart_id == cur[b].cart_id && cur[a].product_id
                                == cur[b].product_id));
                        } else {
                            if cur[a].cart_id == cart_id as int && cur[a].product_id
                                == product_id as int {
                                assert(has_item(cur, cart_id as int, product_id as int));
                            }
                        }
                    }
                    assert forall|m: int|
                        0 <= m < t.len() implies (#[trigger] t[m]).cart_id
                        < store.next_cart_id as int by {
                        if m < cur.len() as int {
                            assert(cur[m].cart_id < store.next_cart_id as int);
                        }
                    }
                }
            },
        }
        q = q + 1;
    }
    proof {
        assert(reqs@.subrange(0, reqs@.len() as int) =~= reqs@);
    }
    let mut updated_cart = store.carts[ci];
    updated_cart.updated_at = now;
    store.carts.set(ci, updated_cart);
    proof {
        assert(store.carts_v() =~= cs.update(ci as int, updated_cart@));
        lemma_update_keeps_unique_cart(cs, ci as int, updated_cart@);
        assert forall|m: int|
            0 <= m < store.carts_v().len() implies (#[trigger] store.carts_v()[m]).id
            < store.next_cart_id as int by {
            assert(cs[m].id < old(store).next_cart_id as int);
        }
    }
    let updated_items = store.items_for_cart(cart_id);
    Ok(UpdateCartRes { deleted_items: deleted, updated_items, updated_cart })
}

/// Deletes a cart the acting patient owns, with its rows.  An order that
/// still references the cart keeps only its identifier: its item view
/// reads live from these rows and degrades to empty.
pub fn delete_cart(store: &mut Store, cart_id: i32, patient_id: i32) -> (r: Result<
    CartEntity,
    AppError,
>)
    requires
        old(store).wf(),
    ensures
        final(store).wf(),
        ({
            let cs = old(store).carts_v();
            let ci = cart_idx(cs, cart_id as int);
            let owned = has_cart(cs, cart_id as int) && cs[ci].patient_id == patient_id as int;
            match r {
                Err(e) => e == AppError::NotFound && !owned && *final(store) == *old(store),
                Ok(c) => {
                    &&& owned
                    &&& c@ == cs[ci]
                    &&& final(store).carts_v() == cs.remove(ci)
                    &&& final(store).items_v() == old(store).items_v().filter(
                        |it: CartItemV| it.cart_id != cart_id as int,
                    )
                    &&& final(store).orders == old(store).orders
                    &&& final(store).payments == old(store).payments
                    &&& final(store).outbox == old(store).outbox
                    &&& final(store).next_cart_id == old(store).next_cart_id
                    &&& final(store).next_order_id == old(store).next_order_id
                    &&& final(store).next_outbox_id == old(store).next_outbox_id
                    &&& final(store).next_payment_id == old(store).next_payment_id
                },
            }
        }),
{
    let ghost cs = store.carts_v();
    let ci = match store.find_cart(cart_id) {
        Some(ci) => ci,
        None => {
            return Err(AppError::NotFound);
        },
    };
    if store.carts[ci].patient_id != patient_id {
        return Err(AppError::NotFound);
    }
    let cart = store.carts[ci];
    store.carts.remove(ci);
    proof {
        assert(store.carts_v() =~= cs.remove(ci as int));
        let t = store.carts_v();
        assert forall|a: int, b: int|
            0 <= a < b < t.len() implies #[trigger] t[a].id != #[trigger] t[b].id by {
            let a0 = if a < ci as int {
                a
            } else {
                a + 1
            };
            let b0 = if b < ci as int {
                b
            } else {
                b + 1
            };
            assert(t[a] == cs[a0]);
            assert(t[b] == cs[b0]);
            assert(cs[a0].id != cs[b0].id);
        }
        assert forall|m: int|
            0 <= m < t.len() implies (#[trigger] t[m]).id < store.next_cart_id as int by {
            let m0 = if m < ci as int {
                m
            } else {
                m + 1
            };
            assert(t[m] == cs[m0]);
            assert(cs[m0].id < old(store).next_cart_id as int);
        }
    }
    let ghost s0 = store.items_v();
    let ghost kp = |it: CartItemV| it.cart_id != cart_id as int;
    let mut kept: Vec<CartItemEntity> = Vec::new();
    proof {
        assert(s0.subrange(0, 0).filter(kp) =~= Seq::<CartItemV>::empty());
        assert(kept@.map_values(|it: CartItemEntity| it@) =~= Seq::<CartItemV>::empty());
    }
    let mut i: usize = 0;
    while i < store.cart_items.len()
        invariant
            s0 == store.items_v(),
            kp == (|it: CartItemV| it.cart_id != cart_id as int),
            i <= store.cart_items.len(),
            kept@.map_values(|it: CartItemEntity| it@) == s0.subrange(0, i as int).filter(kp),
        decreases store.cart_items.len() - i,
    {
        let ghost pre = s0.subrange(0, i as int);
        proof {
            assert(s0.subrange(0, i as int + 1) =~= pre + seq![s0[i as int]]);
            Seq::<CartItemV>::filter_distributes_over_add(pre, seq![s0[i as int]], kp);
            lemma_filter_singleton(s0[i as int], kp);
            assert(s0[i as int] == store.cart_items@[i as int]@);
        }
        let it = store.cart_items[i];
        if it.cart_id != cart_id {
            kept.push(it);
            proof {
                assert(kp(s0[i as int]));
            }
        } else {
            proof {
                assert(!kp(s0[i as int]));
            }
        }
        proof {
            assert(kept@.map_values(|it2: CartItemEntity| it2@) =~= s0.subrange(
                0,
                i as int + 1,
            ).filter(kp));
        }
        i = i + 1;
    }
    proof {
        assert(s0.subrange(0, s0.len() as int) =~= s0);
    }
    store.cart_items = kept;
    proof {
        lemma_filter_unique_pairs(s0, kp);
        let t = store.items_v();
        assert forall|m: int|
            0 <= m < t.len() implies (#[trigger] t[m]).cart_id < store.next_cart_id as int by {
            let k = choose|k: int| 0 <= k < s0.len() && s0[k] == t[m];
            assert(s0[k].cart_id < old(store).next_cart_id as int);
        }
    }
    Ok(cart)
}

/// Every cart in the system.
pub fn get_carts(store: &Store) -> (r: Vec<CartEntity>)
    ensures
        r@.map_values(|c: CartEntity| c@) == store.carts_v(),
{
    let mut r: Vec<CartEntity> = Vec::new();
    proof {
        assert(r@.map_values(|c: CartEntity| c@) =~= store.carts_v().subrange(0, 0));
    }
    let mut i: usize = 0;
    while i < store.carts.len()
        invariant
            i <= store.carts.len(),
            r@.len() == i,
            r@.map_values(|c: CartEntity| c@) == store.carts_v().subrange(0, i as int),
        decreases store.carts.len() - i,
    {
        let ghost prev = r@;
        r.push(store.carts[i]);
        i = i + 1;
        proof {
            assert(r@ =~= prev.push(store.carts@[i as int - 1]));
            assert forall|m: int|
                0 <= m < i implies r@.map_values(|c: CartEntity| c@)[m] == store.carts_v().subrange(
                0,
                i as int,
            )[m] by {
                if m < i - 1 {
                    assert(prev.map_values(|c: CartEntity| c@)[m] == store.carts_v().subrange(
                        0,
                        i as int - 1,
                    )[m]);
                }
            }
            assert(r@.map_values(|c: CartEntity| c@) =~= store.carts_v().subrange(0, i as int));
        }
    }
    proof {
        assert(store.carts_v().subrange(0, store.carts_v().len() as int) =~= store.carts_v());
    }
    r
}

/// A cart with its rows and their total price.
pub struct GetCartRes {
    pub cart: CartEntity,
    pub cart_items: Vec<CartItemEntity>,
    pub total_price: i64,
}

/// Whether an entry reproduces a cart row faithfully: the cart itself,
/// its rows read live from the item table, and their total.
pub open spec fn cart_res_ok(
    e: GetCartRes,
    c: CartV,
    table: Seq<CartItemV>,
    prices: Seq<(i32, u32)>,
) -> bool {
    &&& e.cart@ == c
    &&& e.cart_items@.map_values(|it: CartItemEntity| it@) == items_of_cart(table, c.id)
    &&& e.total_price as int == line_total(items_of_cart(table, c.id), prices)
}

/// One cart of the acting patient, with its rows and their total against
/// the pricing response.
pub fn get_cart(store: &Store, cart_id: i32, patient_id: i32, prices: &PriceList) -> (r: Result<
    GetCartRes,
    AppError,
>)
    requires
        store.wf(),
        prices.wf(),
    ensures
        ({
            let cs = store.carts_v();
            let ci = cart_idx(cs, cart_id as int);
            let owned = has_cart(cs, cart_id as int) && cs[ci].patient_id == patient_id as int;
            let total = line_total(
                items_of_cart(store.items_v(), cart_id as int),
                prices.entries_v(),
            );
            match r {
                Err(e) => if !owned {
                    e == AppError::NotFound
                } else {
                    e == AppError::TransactionFailed && !fits_i64(total)
                },
                Ok(res) => {
                    &&& owned
                    &&& res.cart@ == cs[ci]
                    &&& res.cart_items@.map_values(|it: CartItemEntity| it@) == items_of_cart(
                        store.items_v(),
                        cart_id as int,
                    )
                    &&& res.total_price as int == total
                },
            }
        }),
{
    let ci = match store.find_cart(cart_id) {
        Some(ci) => ci,
        None => {
            return Err(AppError::NotFound);
        },
    };
    if store.carts[ci].patient_id != patient_id {
        return Err(AppError::NotFound);
    }
    let cart_items = store.items_for_cart(cart_id);
    let total_price = match total_cents(&cart_items, prices) {
        Some(t) => t,
        None => {
            return Err(AppError::TransactionFailed);
        },
    };
    Ok(GetCartRes { cart: store.carts[ci], cart_items, total_price })
}

/// Every cart of the acting patient, each with its rows and their total
/// against the pricing response.
pub fn get_my_carts(store: &Store, patient_id: i32, prices: &PriceList) -> (r: Result<
    Vec<GetCartRes>,
    AppError,
>)
    requires
        store.wf(),
        prices.wf(),
    ensures
        ({
            let mine = store.carts_v().filter(|c: CartV| c.patient_id == patient_id as int);
            match r {
                Err(e) => {
                    &&& e == AppError::TransactionFailed
                    &&& exists|k: int|
                        0 <= k < mine.len() && !fits_i64(
                            line_total(
                                items_of_cart(store.items_v(), (#[trigger] mine[k]).id),
                                prices.entries_v(),
                            ),
                        )
                },
                Ok(res) => {
                    &&& res@.len() == mine.len()
                    &&& forall|k: int|
                        0 <= k < mine.len() ==> cart_res_ok(
                            #[trigger] res@[k],
                            mine[k],
                            store.items_v(),
                            prices.entries_v(),
                        )
                },
            }
        }),
{
    let ghost cs = store.carts_v();
    let ghost mp = |c: CartV| c.patient_id == patient_id as int;
    let mut res: Vec<GetCartRes> = Vec::new();
    proof {
        assert(cs.subrange(0, 0).filter(mp) =~= Seq::<CartV>::empty());
    }
    let mut i: usize = 0;
    while i < store.carts.len()
        invariant
            store.wf(),
            prices.wf(),
            cs == store.carts_v(),
            mp == (|c: CartV| c.patient_id == patient_id as int),
            i <= store.carts.len(),
            res@.len() == cs.subrange(0, i as int).filter(mp).len(),
            forall|k: int|
                0 <= k < res@.len() ==> cart_res_ok(
                    #[trigger] res@[k],
                    cs.subrange(0, i as int).filter(mp)[k],
                    store.items_v(),
                    prices.entries_v(),
                ),
        decreases store.carts.len() - i,
    {
        let ghost pre = cs.subrange(0, i as int);
        proof {
            assert(cs.subrange(0, i as int + 1) =~= pre + seq![cs[i as int]]);
            Seq::<CartV>::filter_distributes_over_add(pre, seq![cs[i as int]], mp);
            lemma_filter_singleton(cs[i as int], mp);
            assert(cs[i as int] == store.carts@[i as int]@);
        }
        let cart = store.carts[i];
        if cart.patient_id == patient_id {
            let cart_items = store.items_for_cart(cart.id);
            let total_price = match total_cents(&cart_items, prices) {
                Some(t) => t,
                None => {
                    proof {
                        let mine = cs.filter(mp);
                        lemma_filter_contains_of(cs, mp, i as int);
                        let k = choose|k: int|
                            0 <= k < mine.len() && mine[k] == cs[i as int];
                        assert(!(i64::MIN <= line_total(
                            items_of_cart(store.items_v(), mine[k].id),
                            prices.entries_v(),
                        ) <= i64::MAX));
                    }
                    return Err(AppError::TransactionFailed);
                },
            };
            res.push(GetCartRes { cart, cart_items, total_price });
            proof {
                let mine1 = cs.subrange(0, i as int + 1).filter(mp);
                assert(mine1 =~= pre.filter(mp).push(cs[i as int]));
            }
        } else {
            proof {
                assert(cs.subrange(0, i as int + 1).filter(mp) =~= pre.filter(mp));
            }
        }
        i = i + 1;
    }
    proof {
        assert(cs.subrange(0, cs.len() as int) =~= cs);
    }
    Ok(res)
}

/// An element a filter keeps is somewhere in the filtered sequence.
pub proof fn lemma_filter_contains_of<A>(s: Seq<A>, pred: spec_fn(A) -> bool, i: int)
    requires
        0 <= i < s.len(),
        pred(s[i]),
    ensures
        exists|k: int| 0 <= k < s.filter(pred).len() && s.filter(pred)[k] == s[i],
    decreases s.len(),
{
    reveal(Seq::filter);
    if i == s.len() - 1 {
        assert(s.filter(pred).last() == s[i]);
        assert(s.filter(pred)[s.filter(pred).len() - 1] == s[i]);
    } else {
        lemma_filter_contains_of(s.drop_last(), pred, i);
        let f0 = s.drop_last().filter(pred);
        let k = choose|k: int| 0 <= k < f0.len() && f0[k] == s.drop_last()[i];
        if pred(s.last()) {
            assert(s.filter(pred) == f0.push(s.last()));
            assert(s.filter(pred)[k] == s[i]);
        } else {
            assert(s.filter(pred) == f0);
            assert(s.filter(pred)[k] == s[i]);
        }
    }
}

} // verus!
