//! Server-side amount computation from line items and the pricing
//! service's response.
//!
//! A payment's amount is the sum of `quantity × unit price` over the
//! order's line items.  A product id absent from the pricing response
//! contributes 0 to the total — an explicit leniency of the service, not
//! an error.
use vstd::prelude::*;

use crate::models::CartItemV;

verus! {

/// The pricing service's response: unit prices in cents, keyed by product
/// id.  Later entries for the same product replace earlier ones, as they
/// do when the response is collected into a map.
pub struct PriceList {
    pub entries: Vec<(i32, u32)>,
}

pub open spec fn has_price(s: Seq<(i32, u32)>, product_id: int) -> bool {
    exists|i: int| 0 <= i < s.len() && (#[trigger] s[i]).0 as int == product_id
}

pub open spec fn price_pos(s: Seq<(i32, u32)>, product_id: int) -> int {
    choose|i: int| 0 <= i < s.len() && (#[trigger] s[i]).0 as int == product_id
}

pub open spec fn unique_products(s: Seq<(i32, u32)>) -> bool {
    forall|i: int, j: int| #![trigger s[i].0, s[j].0] 0 <= i < j < s.len() ==> s[i].0 != s[j].0
}

/// The unit price used for a product: its entry if one is present, 0 if
/// the pricing response omitted the product.
pub open spec fn unit_price_or_zero(s: Seq<(i32, u32)>, product_id: int) -> int {
    if has_price(s, product_id) {
        s[price_pos(s, product_id)].1 as int
    } else {
        0
    }
}

/// Whether a mathematical total fits the amount column.
pub open spec fn fits_i64(v: int) -> bool {
    i64::MIN <= v <= i64::MAX
}

/// The total of a sequence of line items against a price list.
pub open spec fn line_total(items: Seq<CartItemV>, prices: Seq<(i32, u32)>) -> int
    decreases items.len(),
{
    if items.len() == 0 {
        0
    } else {
        line_total(items.drop_last(), prices) + items.last().quantity * unit_price_or_zero(
            prices,
            items.last().product_id,
        )
    }
}

proof fn lemma_unique_price_pos(s: Seq<(i32, u32)>, product_id: int, j: int)
    requires
        unique_products(s),
        0 <= j < s.len(),
        s[j].0 as int == product_id,
    ensures
        has_price(s, product_id),
        price_pos(s, product_id) == j,
{
    assert(has_price(s, product_id));
    let k = price_pos(s, product_id);
    if k != j {
        if k < j {
            assert(s[k].0 != s[j].0);
        } else {
            assert(s[j].0 != s[k].0);
        }
    }
}

impl PriceList {
    pub open spec fn entries_v(self) -> Seq<(i32, u32)> {
        self.entries@
    }

    pub open spec fn wf(self) -> bool {
        unique_products(self.entries@)
    }

    /// An empty response: every product is unpriced.
    pub fn new() -> (r: PriceList)
        ensures
            r.wf(),
            r.entries_v().len() == 0,
    {
        PriceList { entries: Vec::new() }
    }

    /// Records one `(product id, unit price)` entry of the response,
    /// replacing the price the product already had, if any.
    pub fn set_price(&mut self, product_id: i32, unit_price: u32)
        requires
            old(self).wf(),
        ensures
            final(self).wf(),
            forall|p: int|
                has_price(final(self).entries_v(), p) <==> (has_price(old(self).entries_v(), p)
                    || p == product_id as int),
            unit_price_or_zero(final(self).entries_v(), product_id as int) == unit_price as int,
            forall|p: int|
                p != product_id as int ==> unit_price_or_zero(final(self).entries_v(), p)
                    == unit_price_or_zero(old(self).entries_v(), p),
    {
        let ghost s = self.entries@;
        let mut j: usize = 0;
        while j < self.entries.len()
            invariant
                *self == *old(self),
                s == self.entries@,
                unique_products(s),
                j <= self.entries.len(),
                forall|k: int| 0 <= k < j ==> (#[trigger] s[k]).0 != product_id,
            decreases self.entries.len() - j,
        {
            if self.entries[j].0 == product_id {
                proof {
                    lemma_unique_idx_price(s, product_id, j as int);
                }
                self.entries.set(j, (product_id, unit_price));
                proof {
                    let t = self.entries@;
                    assert forall|i: int, k: int|
                        0 <= i < k < t.len() implies #[trigger] t[i].0 != #[trigger] t[k].0 by {
                        assert(s[i].0 != s[k].0);
                    }
                    lemma_unique_price_pos(t, product_id as int, j as int);
                    assert forall|p: int|
                        has_price(t, p) <==> (has_price(s, p) || p == product_id as int) by {
                        assert forall|i: int| 0 <= i < t.len() implies t[i].0 == s[i].0 by {}
                        if has_price(t, p) {
                            let k = price_pos(t, p);
                            assert(s[k].0 as int == p);
                            assert(has_price(s, p));
                        }
                        if has_price(s, p) {
                            let k = price_pos(s, p);
                            assert(t[k].0 as int == p);
                            assert(has_price(t, p));
                        }
                    }
                    assert forall|p: int|
                        p != product_id as int implies unit_price_or_zero(t, p)
                        == unit_price_or_zero(s, p) by {
                        if has_price(s, p) {
                            let i = price_pos(s, p);
                            assert(0 <= i < s.len() && s[i].0 as int == p);
                            assert(i != j as int);
                            assert(t[i].0 as int == p);
                            lemma_unique_price_pos(t, p, i);
                        } else {
                            if has_price(t, p) {
                                let k = price_pos(t, p);
                                assert(0 <= k < t.len() && t[k].0 as int == p);
                                assert(k != j as int);
                                assert(s[k].0 as int == p);
                                assert(has_price(s, p));
                            }
                        }
                    }
                }
                return ;
            }
            j = j + 1;
        }
        self.entries.push((product_id, unit_price));
        proof {
            let t = self.entries@;
            assert forall|i: int, k: int|
                0 <= i < k < t.len() implies #[trigger] t[i].0 != #[trigger] t[k].0 by {
                if k < s.len() as int {
                    assert(s[i].0 != s[k].0);
                } else {
                    assert(t[k].0 == product_id);
                    assert(s[i].0 != product_id);
                }
            }
            lemma_unique_price_pos(t, product_id as int, s.len() as int);
            assert forall|p: int|
                has_price(t, p) <==> (has_price(s, p) || p == product_id as int) by {
                if has_price(t, p) {
                    let k = price_pos(t, p);
                    if k < s.len() as int {
                        assert(s[k].0 as int == p);
                        assert(has_price(s, p));
                    }
                }
                if has_price(s, p) {
                    let k = price_pos(s, p);
                    assert(t[k].0 as int == p);
                    assert(has_price(t, p));
                }
            }
            assert forall|p: int|
                p != product_id as int implies unit_price_or_zero(t, p) == unit_price_or_zero(
                s,
                p,
            ) by {
                if has_price(s, p) {
                    let i = price_pos(s, p);
                    assert(0 <= i < s.len() && s[i].0 as int == p);
                    assert(t[i].0 as int == p);
                    lemma_unique_price_pos(t, p, i);
                } else {
                    if has_price(t, p) {
                        let k = price_pos(t, p);
                        assert(0 <= k < t.len() && t[k].0 as int == p);
                        assert(k != s.len() as int);
                        assert(s[k].0 as int == p);
                        assert(has_price(s, p));
                    }
                }
            }
        }
    }

    /// The unit price recorded for a product, if the response priced it.
    pub fn lookup(&self, product_id: i32) -> (r: Option<u32>)
        requires
            self.wf(),
        ensures
            match r {
                Some(p) => has_price(self.entries_v(), product_id as int) && p as int
                    == unit_price_or_zero(self.entries_v(), product_id as int),
                None => !has_price(self.entries_v(), product_id as int),
            },
    {
        let ghost s = self.entries@;
        let mut j: usize = 0;
        while j < self.entries.len()
            invariant
                s == self.entries@,
                unique_products(s),
                j <= self.entries.len(),
                forall|k: int| 0 <= k < j ==> (#[trigger] s[k]).0 != product_id,
            decreases self.entries.len() - j,
        {
            if self.entries[j].0 == product_id {
                proof {
                    lemma_unique_price_pos(s, product_id as int, j as int);
                }
                return Some(self.entries[j].1);
            }
            j = j + 1;
        }
        None
    }
}

proof fn lemma_unique_idx_price(s: Seq<(i32, u32)>, product_id: i32, j: int)
    requires
        unique_products(s),
        0 <= j < s.len(),
        s[j].0 == product_id,
    ensures
        has_price(s, product_id as int),
        price_pos(s, product_id as int) == j,
{
    lemma_unique_price_pos(s, product_id as int, j);
}

/// Appending a line item whose product the pricing response omitted leaves
/// the total unchanged: the pricing-gap policy.
pub proof fn lemma_missing_product_contributes_zero(
    items: Seq<CartItemV>,
    prices: Seq<(i32, u32)>,
    item: CartItemV,
)
    requires
        !has_price(prices, item.product_id),
    ensures
        line_total(items.push(item), prices) == line_total(items, prices),
{
    assert(items.push(item).drop_last() =~= items);
    assert(items.push(item).last() == item);
}

/// The total of line items against a price list, in cents; `None` exactly
/// when the mathematical total does not fit the amount column.
pub fn total_cents(items: &Vec<crate::models::CartItemEntity>, prices: &PriceList) -> (r: Option<
    i64,
>)
    requires
        prices.wf(),
    ensures
        ({
            let t = line_total(items@.map_values(|it: crate::models::CartItemEntity| it@), prices.entries_v());
            match r {
                Some(v) => v as int == t,
                None => !(i64::MIN <= t <= i64::MAX),
            }
        }),
{
    let ghost iv = items@.map_values(|it: crate::models::CartItemEntity| it@);
    let mut acc: i128 = 0;
    let mut j: usize = 0;
    while j < items.len()
        invariant
            prices.wf(),
            iv == items@.map_values(|it: crate::models::CartItemEntity| it@),
            j <= items.len(),
            acc as int == line_total(iv.subrange(0, j as int), prices.entries_v()),
            -(j as int) * 0x7fff_ffff_ffff_ffffi64 <= acc as int <= (j as int)
                * 0x7fff_ffff_ffff_ffffi64,
        decreases items.len() - j,
    {
        let it = items[j];
        let price: u32 = match prices.lookup(it.product_id) {
            Some(p) => p,
            None => 0,
        };
        proof {
            assert(-0x7fff_ffff_ffff_ffff <= (it.quantity as int) * (price as int)
                <= 0x7fff_ffff_ffff_ffff) by (nonlinear_arith)
                requires
                    -0x8000_0000 <= it.quantity as int <= 0x7fff_ffff,
                    0 <= price as int <= 0xffff_ffff,
            ;
        }
        let term: i128 = (it.quantity as i128) * (price as i128);
        proof {
            assert((j as int + 1) * 0x7fff_ffff_ffff_ffffi64 == (j as int)
                * 0x7fff_ffff_ffff_ffffi64 + 0x7fff_ffff_ffff_ffffi64) by (nonlinear_arith);
            assert((j as int + 1) * 0x7fff_ffff_ffff_ffffi64 < 0x7fff_ffff_ffff_ffff_ffff_ffff_ffff_ffffi128)
                by (nonlinear_arith)
                requires
                    0 <= j as int + 1 <= 0x1_0000_0000_0000_0000i128,
            ;
            assert(unit_price_or_zero(prices.entries_v(), it.product_id as int) == price as int);
            assert(iv.subrange(0, j as int + 1).drop_last() =~= iv.subrange(0, j as int));
            assert(iv.subrange(0, j as int + 1).last() == iv[j as int]);
            assert(iv[j as int] == it@);
        }
        acc = acc + term;
        j = j + 1;
    }
    proof {
        assert(iv.subrange(0, items@.len() as int) =~= iv);
    }
    if acc >= -0x8000_0000_0000_0000i128 && acc <= 0x7fff_ffff_ffff_ffffi128 {
        Some(acc as i64)
    } else {
        None
    }
}

} // verus!
