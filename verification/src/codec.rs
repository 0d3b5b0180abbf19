//! Framing and parsing of event payloads.
//!
//! Payloads are versionless, flat, self-describing records.  Produced
//! payloads are framed byte-for-byte against a spec-level encoding;
//! consumed payloads are parsed by a recursive-descent parser whose
//! specification is the grammar itself: an object of `"key": value`
//! pairs, each value an integer or a string, with arbitrary blank space
//! between tokens.
use vstd::prelude::*;

use vstd::string::StringSliceAdditionalSpecFns;

use crate::models::{CartItemEntity, CartItemV};

verus! {

// Decimal rendering.

/// The decimal digits of a natural number, most significant first.
pub open spec fn dec_nat(n: nat) -> Seq<u8>
    decreases n,
{
    if n < 10 {
        seq![(48 + n) as u8]
    } else {
        dec_nat(n / 10).push((48 + n % 10) as u8)
    }
}

/// The decimal rendering of an integer, with a leading minus sign when
/// negative.
pub open spec fn dec_int(v: int) -> Seq<u8> {
    if v < 0 {
        seq![45u8] + dec_nat((-v) as nat)
    } else {
        dec_nat(v as nat)
    }
}

fn push_dec_u64(out: &mut Vec<u8>, n: u64)
    ensures
        final(out)@ == old(out)@ + dec_nat(n as nat),
    decreases n,
{
    if n < 10 {
        out.push(48 + (n as u8));
        proof {
            assert(out@ =~= old(out)@ + dec_nat(n as nat));
        }
    } else {
        push_dec_u64(out, n / 10);
        out.push(48 + ((n % 10) as u8));
        proof {
            assert(out@ =~= old(out)@ + dec_nat(n as nat));
        }
    }
}

fn push_dec_i32(out: &mut Vec<u8>, v: i32)
    ensures
        final(out)@ == old(out)@ + dec_int(v as int),
{
    if v >= 0 {
        push_dec_u64(out, v as u64);
    } else {
        out.push(45);
        let m: u64 = (-(v as i64)) as u64;
        proof {
            assert(m as nat == (-(v as int)) as nat);
        }
        push_dec_u64(out, m);
        proof {
            assert(out@ =~= old(out)@ + dec_int(v as int));
        }
    }
}

fn push_slice(out: &mut Vec<u8>, s: &[u8])
    ensures
        final(out)@ == old(out)@ + s@,
{
    let mut i: usize = 0;
    while i < s.len()
        invariant
            i <= s@.len(),
            out@ == old(out)@ + s@.subrange(0, i as int),
        decreases s@.len() - i,
    {
        out.push(s[i]);
        i = i + 1;
        proof {
            assert(out@ =~= old(out)@ + s@.subrange(0, i as int));
        }
    }
    proof {
        assert(s@.subrange(0, s@.len() as int) =~= s@);
    }
}

// Produced payloads.

/// One line item of an order-level event.
pub open spec fn item_json(it: CartItemV) -> Seq<u8> {
    ("{\"product_id\":").spec_bytes() + dec_int(it.product_id) + (",\"quantity\":").spec_bytes()
        + dec_int(it.quantity) + ("}").spec_bytes()
}

/// The line items of an order-level event, comma separated.
pub open spec fn items_json(items: Seq<CartItemV>) -> Seq<u8>
    decreases items.len(),
{
    if items.len() == 0 {
        Seq::empty()
    } else if items.len() == 1 {
        item_json(items[0])
    } else {
        items_json(items.drop_last()) + (",").spec_bytes() + item_json(items.last())
    }
}

/// The payload announcing an order with its line items, as published
/// under `inventory.reserve_order` and `inventory.cancel_order`.
pub open spec fn order_items_payload(order_id: int, items: Seq<CartItemV>) -> Seq<u8> {
    ("{\"order_id\":").spec_bytes() + dec_int(order_id) + (",\"order_items\":[").spec_bytes()
        + items_json(items) + ("]}").spec_bytes()
}

/// The payload requesting a delivery, as published under
/// `delivery.order_request`: the address snapshot is spliced in as the
/// bytes captured at order creation.
pub open spec fn delivery_request_payload(
    address: Seq<u8>,
    order_id: int,
    order_type: Seq<u8>,
) -> Seq<u8> {
    ("{\"delivery_address\":").spec_bytes() + address + (",\"order_id\":").spec_bytes() + dec_int(
        order_id,
    ) + (",\"order_type\":\"").spec_bytes() + order_type + ("\"}").spec_bytes()
}

fn push_item_json(out: &mut Vec<u8>, it: &CartItemEntity)
    ensures
        final(out)@ == old(out)@ + item_json(it@),
{
    push_slice(out, ("{\"product_id\":").as_bytes());
    push_dec_i32(out, it.product_id);
    push_slice(out, (",\"quantity\":").as_bytes());
    push_dec_i32(out, it.quantity);
    push_slice(out, ("}").as_bytes());
}

/// Frames the order/line-items payload.
pub fn encode_order_items_event(order_id: i32, items: &Vec<CartItemEntity>) -> (r: Vec<u8>)
    ensures
        r@ == order_items_payload(
            order_id as int,
            items@.map_values(|it: CartItemEntity| it@),
        ),
{
    let ghost iv = items@.map_values(|it: CartItemEntity| it@);
    let mut out: Vec<u8> = Vec::new();
    push_slice(&mut out, ("{\"order_id\":").as_bytes());
    push_dec_i32(&mut out, order_id);
    push_slice(&mut out, (",\"order_items\":[").as_bytes());
    let ghost header = out@;
    let mut j: usize = 0;
    while j < items.len()
        invariant
            iv == items@.map_values(|it: CartItemEntity| it@),
            j <= items@.len(),
            out@ == header + items_json(iv.subrange(0, j as int)),
        decreases items@.len() - j,
    {
        if j > 0 {
            push_slice(&mut out, (",").as_bytes());
        }
        push_item_json(&mut out, &items[j]);
        proof {
            let pre = iv.subrange(0, j as int);
            let post = iv.subrange(0, j as int + 1);
            assert(post.drop_last() =~= pre);
            assert(post.last() == iv[j as int]);
            if j == 0 {
                assert(items_json(post) == item_json(iv[0]));
                assert(out@ =~= header + items_json(post));
            } else {
                assert(items_json(post) == items_json(pre) + (",").spec_bytes() + item_json(
                    iv[j as int],
                ));
                assert(out@ =~= header + items_json(post));
            }
        }
        j = j + 1;
    }
    proof {
        assert(iv.subrange(0, iv.len() as int) =~= iv);
    }
    push_slice(&mut out, ("]}").as_bytes());
    proof {
        assert(out@ =~= order_items_payload(order_id as int, iv));
    }
    out
}

/// Frames the delivery-request payload.
pub fn encode_delivery_request_event(
    address: &Vec<u8>,
    order_id: i32,
    order_type: &Vec<u8>,
) -> (r: Vec<u8>)
    ensures
        r@ == delivery_request_payload(address@, order_id as int, order_type@),
{
    let mut out: Vec<u8> = Vec::new();
    push_slice(&mut out, ("{\"delivery_address\":").as_bytes());
    push_slice(&mut out, address.as_slice());
    push_slice(&mut out, (",\"order_id\":").as_bytes());
    push_dec_i32(&mut out, order_id);
    push_slice(&mut out, (",\"order_type\":\"").as_bytes());
    push_slice(&mut out, order_type.as_slice());
    push_slice(&mut out, ("\"}").as_bytes());
    proof {
        assert(out@ =~= delivery_request_payload(address@, order_id as int, order_type@));
    }
    out
}

// Consumed payloads: a flat object of string keys and scalar values.

/// A scalar field value of a consumed payload.
#[derive(Debug)]
pub enum JsonScalar {
    IntVal(i64),
    StrVal(Vec<u8>),
}

pub ghost enum JsonScalarV {
    IntV(int),
    StrV(Seq<u8>),
}

impl View for JsonScalar {
    type V = JsonScalarV;

    open spec fn view(&self) -> JsonScalarV {
        match self {
            JsonScalar::IntVal(v) => JsonScalarV::IntV(*v as int),
            JsonScalar::StrVal(b) => JsonScalarV::StrV(b@),
        }
    }
}

pub open spec fn is_ws(b: u8) -> bool {
    b == 32 || b == 9 || b == 10 || b == 13
}

pub open spec fn is_digit(b: u8) -> bool {
    48 <= b <= 57
}

/// First position at or after `i` holding something other than blank
/// space.
pub open spec fn skip_ws(s: Seq<u8>, i: int) -> int
    decreases s.len() - i,
{
    if 0 <= i < s.len() && is_ws(s[i]) {
        skip_ws(s, i + 1)
    } else {
        i
    }
}

pub proof fn lemma_skip_ws(s: Seq<u8>, i: int)
    requires
        0 <= i <= s.len(),
    ensures
        i <= skip_ws(s, i) <= s.len(),
    decreases s.len() - i,
{
    if i < s.len() && is_ws(s[i]) {
        lemma_skip_ws(s, i + 1);
    }
}

/// The body of a string token starting after its opening quote: the
/// content up to the closing quote, or nothing if the input ends or an
/// escape appears first.
pub open spec fn scan_str(s: Seq<u8>, i: int) -> Option<(Seq<u8>, int)>
    decreases s.len() - i,
{
    if i < 0 || i >= s.len() {
        None
    } else if s[i] == 34 {
        Some((Seq::empty(), i + 1))
    } else if s[i] == 92 {
        None
    } else {
        match scan_str(s, i + 1) {
            Some((c, j)) => Some((seq![s[i]] + c, j)),
            None => None,
        }
    }
}

pub proof fn lemma_scan_str(s: Seq<u8>, i: int)
    requires
        0 <= i,
    ensures
        match scan_str(s, i) {
            Some((c, j)) => i < j <= s.len(),
            None => true,
        },
    decreases s.len() - i,
{
    if 0 <= i < s.len() && s[i] != 34 && s[i] != 92 {
        lemma_scan_str(s, i + 1);
    }
}

/// First position at or after `i` holding a non-digit.
pub open spec fn digits_end(s: Seq<u8>, i: int) -> int
    decreases s.len() - i,
{
    if 0 <= i < s.len() && is_digit(s[i]) {
        digits_end(s, i + 1)
    } else {
        i
    }
}

pub proof fn lemma_digits_end(s: Seq<u8>, i: int)
    requires
        0 <= i <= s.len(),
    ensures
        i <= digits_end(s, i) <= s.len(),
    decreases s.len() - i,
{
    if i < s.len() && is_digit(s[i]) {
        lemma_digits_end(s, i + 1);
    }
}

/// The value of the digit run `s[i..end]`.
pub open spec fn dec_val(s: Seq<u8>, i: int, end: int) -> int
    decreases end - i,
{
    if i >= end {
        0
    } else {
        dec_val(s, i, end - 1) * 10 + (s[end - 1] - 48)
    }
}

pub open spec fn pow10(k: int) -> int
    decreases k,
{
    if k <= 0 {
        1
    } else {
        10 * pow10(k - 1)
    }
}

proof fn lemma_dec_val_bound(s: Seq<u8>, i: int, end: int)
    requires
        i <= end,
        forall|k: int| i <= k < end ==> is_digit(#[trigger] s[k]),
    ensures
        0 <= dec_val(s, i, end) < pow10(end - i),
    decreases end - i,
{
    if i < end {
        lemma_dec_val_bound(s, i, end - 1);
    }
}

proof fn lemma_pow10_pos(k: int)
    ensures
        pow10(k) >= 1,
    decreases k,
{
    if k > 0 {
        lemma_pow10_pos(k - 1);
    }
}

proof fn lemma_pow10_mono(a: int, b: int)
    requires
        a <= b,
    ensures
        pow10(a) <= pow10(b),
    decreases b - a,
{
    if a < b {
        lemma_pow10_mono(a, b - 1);
        lemma_pow10_pos(b - 1);
    }
}

/// A decimal integer token: an optional minus sign and a run of at most
/// 18 digits, which always fits the integer column.
pub open spec fn parse_int(s: Seq<u8>, i: int) -> Option<(int, int)> {
    if i < 0 || i >= s.len() {
        None
    } else {
        let neg = s[i] == 45;
        let d0 = if neg {
            i + 1
        } else {
            i
        };
        let end = digits_end(s, d0);
        if end == d0 || end - d0 > 18 {
            None
        } else {
            let v = dec_val(s, d0, end);
            Some(
                (
                    if neg {
                        -v
                    } else {
                        v
                    },
                    end,
                ),
            )
        }
    }
}

pub proof fn lemma_parse_int(s: Seq<u8>, i: int)
    requires
        0 <= i,
    ensures
        match parse_int(s, i) {
            Some((v, j)) => i < j <= s.len(),
            None => true,
        },
{
    if 0 <= i < s.len() {
        let d0 = if s[i] == 45 {
            i + 1
        } else {
            i
        };
        if d0 <= s.len() {
            lemma_digits_end(s, d0);
        }
    }
}

/// A scalar token: a string or an integer.
pub open spec fn parse_scalar(s: Seq<u8>, i: int) -> Option<(JsonScalarV, int)> {
    if i < 0 || i >= s.len() {
        None
    } else if s[i] == 34 {
        match scan_str(s, i + 1) {
            Some((c, j)) => Some((JsonScalarV::StrV(c), j)),
            None => None,
        }
    } else if s[i] == 45 || is_digit(s[i]) {
        match parse_int(s, i) {
            Some((v, j)) => Some((JsonScalarV::IntV(v), j)),
            None => None,
        }
    } else {
        None
    }
}

pub proof fn lemma_parse_scalar(s: Seq<u8>, i: int)
    requires
        0 <= i,
    ensures
        match parse_scalar(s, i) {
            Some((v, j)) => i < j <= s.len(),
            None => true,
        },
{
    if 0 <= i < s.len() {
        if s[i] == 34 {
            lemma_scan_str(s, i + 1);
        } else {
            lemma_parse_int(s, i);
        }
    }
}

/// One or more `"key": value` pairs separated by commas, ending at the
/// object's closing brace.
pub open spec fn parse_pairs(s: Seq<u8>, i: int) -> Option<(Seq<(Seq<u8>, JsonScalarV)>, int)>
    decreases s.len() - i,
        via parse_pairs_decreases
{
    if i < 0 || i >= s.len() || s[i] != 34 {
        None
    } else {
        match scan_str(s, i + 1) {
            None => None,
            Some((key, j1)) => {
                let j2 = skip_ws(s, j1);
                if j2 >= s.len() || s[j2] != 58 {
                    None
                } else {
                    let j3 = skip_ws(s, j2 + 1);
                    match parse_scalar(s, j3) {
                        None => None,
                        Some((v, j4)) => {
                            let j5 = skip_ws(s, j4);
                            if j5 < s.len() && s[j5] == 44 {
                                let j6 = skip_ws(s, j5 + 1);
                                match parse_pairs(s, j6) {
                                    Some((rest, j7)) => Some((seq![(key, v)] + rest, j7)),
                                    None => None,
                                }
                            } else if j5 < s.len() && s[j5] == 125 {
                                Some((seq![(key, v)], j5 + 1))
                            } else {
                                None
                            }
                        },
                    }
                }
            },
        }
    }
}

#[via_fn]
proof fn parse_pairs_decreases(s: Seq<u8>, i: int) {
    if 0 <= i && i < s.len() && s[i] == 34 {
        lemma_scan_str(s, i + 1);
        match scan_str(s, i + 1) {
            None => {},
            Some((key, j1)) => {
                lemma_skip_ws(s, j1);
                let j2 = skip_ws(s, j1);
                if j2 < s.len() && s[j2] == 58 {
                    lemma_skip_ws(s, j2 + 1);
                    let j3 = skip_ws(s, j2 + 1);
                    lemma_parse_scalar(s, j3);
                    match parse_scalar(s, j3) {
                        None => {},
                        Some((v, j4)) => {
                            lemma_skip_ws(s, j4);
                            let j5 = skip_ws(s, j4);
                            if j5 < s.len() && s[j5] == 44 {
                                lemma_skip_ws(s, j5 + 1);
                            }
                        },
                    }
                }
            },
        }
    }
}

/// A whole consumed payload: one object of pairs, possibly empty, with
/// nothing but blank space around it.
pub open spec fn parse_payload(s: Seq<u8>) -> Option<Seq<(Seq<u8>, JsonScalarV)>> {
    let j0 = skip_ws(s, 0);
    if j0 >= s.len() || s[j0] != 123 {
        None
    } else {
        let j1 = skip_ws(s, j0 + 1);
        if j1 < s.len() && s[j1] == 125 {
            if skip_ws(s, j1 + 1) == s.len() {
                Some(Seq::empty())
            } else {
                None
            }
        } else {
            match parse_pairs(s, j1) {
                Some((ps, j2)) => {
                    if skip_ws(s, j2) == s.len() {
                        Some(ps)
                    } else {
                        None
                    }
                },
                None => None,
            }
        }
    }
}

/// The value of the first field with the given key.
pub open spec fn pairs_lookup(ps: Seq<(Seq<u8>, JsonScalarV)>, key: Seq<u8>) -> Option<JsonScalarV>
    decreases ps.len(),
{
    if ps.len() == 0 {
        None
    } else if ps[0].0 == key {
        Some(ps[0].1)
    } else {
        pairs_lookup(ps.drop_first(), key)
    }
}

/// The order id a consumed payload names, when the payload decodes and
/// the field fits the id column.
pub open spec fn order_id_of(payload: Seq<u8>) -> Option<int> {
    match parse_payload(payload) {
        None => None,
        Some(ps) => match pairs_lookup(ps, ("order_id").spec_bytes()) {
            Some(JsonScalarV::IntV(v)) => if i32::MIN <= v <= i32::MAX {
                Some(v)
            } else {
                None
            },
            _ => None,
        },
    }
}

/// The delivery id a consumed payload names, when the payload decodes.
pub open spec fn delivery_id_of(payload: Seq<u8>) -> Option<Seq<u8>> {
    match parse_payload(payload) {
        None => None,
        Some(ps) => match pairs_lookup(ps, ("delivery_id").spec_bytes()) {
            Some(JsonScalarV::StrV(c)) => Some(c),
            _ => None,
        },
    }
}

// The executable parser, each function exact against its spec.

pub open spec fn pairs_view(v: Seq<(Vec<u8>, JsonScalar)>) -> Seq<(Seq<u8>, JsonScalarV)> {
    v.map_values(|p: (Vec<u8>, JsonScalar)| (p.0@, p.1@))
}

fn skip_ws_x(s: &[u8], i: usize) -> (r: usize)
    requires
        i <= s@.len(),
    ensures
        r as int == skip_ws(s@, i as int),
        i <= r <= s@.len(),
{
    let mut j: usize = i;
    while j < s.len() && (s[j] == 32 || s[j] == 9 || s[j] == 10 || s[j] == 13)
        invariant
            i <= j <= s@.len(),
            skip_ws(s@, i as int) == skip_ws(s@, j as int),
        decreases s@.len() - j,
    {
        j = j + 1;
    }
    j
}

fn scan_str_x(s: &[u8], i: usize) -> (r: Option<(Vec<u8>, usize)>)
    requires
        i <= s@.len(),
    ensures
        match r {
            Some((c, j)) => scan_str(s@, i as int) == Some((c@, j as int)) && i < j <= s@.len(),
            None => scan_str(s@, i as int) is None,
        },
    decreases s@.len() - i,
{
    if i >= s.len() {
        None
    } else if s[i] == 34 {
        Some((Vec::new(), i + 1))
    } else if s[i] == 92 {
        None
    } else {
        match scan_str_x(s, i + 1) {
            Some((mut c, j)) => {
                let ghost co = c@;
                c.insert(0, s[i]);
                proof {
                    assert(c@ =~= seq![s@[i as int]] + co);
                }
                Some((c, j))
            },
            None => None,
        }
    }
}

fn parse_int_x(s: &[u8], i: usize) -> (r: Option<(i64, usize)>)
    requires
        i <= s@.len(),
    ensures
        match r {
            Some((v, j)) => parse_int(s@, i as int) == Some((v as int, j as int)) && i < j
                <= s@.len(),
            None => parse_int(s@, i as int) is None,
        },
{
    if i >= s.len() {
        return None;
    }
    let neg = s[i] == 45;
    let d0: usize = if neg {
        i + 1
    } else {
        i
    };
    let mut e: usize = d0;
    while e < s.len() && 48 <= s[e] && s[e] <= 57
        invariant
            d0 <= e <= s@.len(),
            digits_end(s@, d0 as int) == digits_end(s@, e as int),
            forall|k: int| d0 <= k < e ==> is_digit(#[trigger] s@[k]),
        decreases s@.len() - e,
    {
        e = e + 1;
    }
    if e == d0 || e - d0 > 18 {
        return None;
    }
    proof {
        assert(pow10(18) == 1000000000000000000) by {
            reveal_with_fuel(pow10, 20);
        }
    }
    let mut acc: i64 = 0;
    let mut j: usize = d0;
    while j < e
        invariant
            d0 <= j <= e <= s@.len(),
            e - d0 <= 18,
            forall|k: int| d0 <= k < e ==> is_digit(#[trigger] s@[k]),
            acc as int == dec_val(s@, d0 as int, j as int),
            0 <= acc as int,
            (acc as int) < pow10(j as int - d0 as int),
            pow10(18) == 1000000000000000000,
        decreases e - j,
    {
        proof {
            lemma_pow10_mono(j as int - d0 as int + 1, 18);
        }
        let d: u8 = s[j] - 48;
        acc = acc * 10 + (d as i64);
        j = j + 1;
    }
    let v: i64 = if neg {
        -acc
    } else {
        acc
    };
    Some((v, e))
}

fn parse_scalar_x(s: &[u8], i: usize) -> (r: Option<(JsonScalar, usize)>)
    requires
        i <= s@.len(),
    ensures
        match r {
            Some((v, j)) => parse_scalar(s@, i as int) == Some((v@, j as int)) && i < j
                <= s@.len(),
            None => parse_scalar(s@, i as int) is None,
        },
{
    if i >= s.len() {
        None
    } else if s[i] == 34 {
        match scan_str_x(s, i + 1) {
            Some((c, j)) => Some((JsonScalar::StrVal(c), j)),
            None => None,
        }
    } else if s[i] == 45 || (48 <= s[i] && s[i] <= 57) {
        match parse_int_x(s, i) {
            Some((v, j)) => Some((JsonScalar::IntVal(v), j)),
            None => None,
        }
    } else {
        None
    }
}

fn parse_pairs_x(s: &[u8], i: usize) -> (r: Option<(Vec<(Vec<u8>, JsonScalar)>, usize)>)
    requires
        i <= s@.len(),
    ensures
        match r {
            Some((ps, j)) => parse_pairs(s@, i as int) == Some((pairs_view(ps@), j as int)) && i
                < j <= s@.len(),
            None => parse_pairs(s@, i as int) is None,
        },
    decreases s@.len() - i,
{
    if i >= s.len() {
        return None;
    }
    if s[i] != 34 {
        return None;
    }
    let (key, j1) = match scan_str_x(s, i + 1) {
        Some(x) => x,
        None => {
            return None;
        },
    };
    let j2 = skip_ws_x(s, j1);
    if j2 >= s.len() {
        return None;
    }
    if s[j2] != 58 {
        return None;
    }
    let j3 = skip_ws_x(s, j2 + 1);
    let (sc, j4) = match parse_scalar_x(s, j3) {
        Some(x) => x,
        None => {
            return None;
        },
    };
    let j5 = skip_ws_x(s, j4);
    if j5 < s.len() && s[j5] == 44 {
        let j6 = skip_ws_x(s, j5 + 1);
        match parse_pairs_x(s, j6) {
            Some((mut rest, j7)) => {
                let ghost rv = rest@;
                let ghost kv = key@;
                let ghost sv = sc@;
                rest.insert(0, (key, sc));
                proof {
                    assert(pairs_view(rest@) =~= seq![(kv, sv)] + pairs_view(rv));
                }
                Some((rest, j7))
            },
            None => None,
        }
    } else if j5 < s.len() && s[j5] == 125 {
        let ghost kv = key@;
        let ghost sv = sc@;
        let mut one: Vec<(Vec<u8>, JsonScalar)> = Vec::new();
        one.push((key, sc));
        proof {
            assert(pairs_view(one@) =~= seq![(kv, sv)]);
        }
        Some((one, j5 + 1))
    } else {
        None
    }
}

fn parse_payload_x(s: &[u8]) -> (r: Option<Vec<(Vec<u8>, JsonScalar)>>)
    ensures
        match r {
            Some(ps) => parse_payload(s@) == Some(pairs_view(ps@)),
            None => parse_payload(s@) is None,
        },
{
    let j0 = skip_ws_x(s, 0);
    if j0 >= s.len() {
        return None;
    }
    if s[j0] != 123 {
        return None;
    }
    let j1 = skip_ws_x(s, j0 + 1);
    if j1 < s.len() && s[j1] == 125 {
        if skip_ws_x(s, j1 + 1) == s.len() {
            let none_yet: Vec<(Vec<u8>, JsonScalar)> = Vec::new();
            proof {
                assert(pairs_view(none_yet@) =~= Seq::<(Seq<u8>, JsonScalarV)>::empty());
            }
            Some(none_yet)
        } else {
            None
        }
    } else {
        match parse_pairs_x(s, j1) {
            Some((ps, j2)) => {
                if skip_ws_x(s, j2) == s.len() {
                    Some(ps)
                } else {
                    None
                }
            },
            None => None,
        }
    }
}

fn pairs_get<'a>(ps: &'a Vec<(Vec<u8>, JsonScalar)>, key: &[u8]) -> (r: Option<&'a JsonScalar>)
    ensures
        match r {
            Some(v) => pairs_lookup(pairs_view(ps@), key@) == Some(v@),
            None => pairs_lookup(pairs_view(ps@), key@) is None,
        },
{
    let ghost pv = pairs_view(ps@);
    proof {
        assert(pv.skip(0) =~= pv);
    }
    let mut j: usize = 0;
    while j < ps.len()
        invariant
            pv == pairs_view(ps@),
            j <= ps@.len(),
            pairs_lookup(pv, key@) == pairs_lookup(pv.skip(j as int), key@),
        decreases ps@.len() - j,
    {
        if crate::models::bytes_eq(ps[j].0.as_slice(), key) {
            proof {
                assert(pv.skip(j as int)[0] == pv[j as int]);
            }
            return Some(&ps[j].1);
        }
        proof {
            assert(pv.skip(j as int)[0] == pv[j as int]);
            assert(pv.skip(j as int).drop_first() =~= pv.skip(j as int + 1));
        }
        j = j + 1;
    }
    proof {
        assert(pv.skip(ps@.len() as int) =~= Seq::<(Seq<u8>, JsonScalarV)>::empty());
    }
    None
}

/// Decodes the order id named by a consumed payload; `None` exactly when
/// the payload is malformed for this purpose.
pub fn decode_order_event(payload: &[u8]) -> (r: Option<i32>)
    ensures
        match r {
            Some(id) => order_id_of(payload@) == Some(id as int),
            None => order_id_of(payload@) is None,
        },
{
    let ps = match parse_payload_x(payload) {
        Some(x) => x,
        None => {
            return None;
        },
    };
    match pairs_get(&ps, ("order_id").as_bytes()) {
        Some(sc) => match sc {
            JsonScalar::IntVal(v) => {
                if *v >= (i32::MIN as i64) && *v <= (i32::MAX as i64) {
                    Some(*v as i32)
                } else {
                    None
                }
            },
            JsonScalar::StrVal(_) => None,
        },
        None => None,
    }
}

/// Decodes the order id and delivery id named by a delivery event
/// payload; `None` exactly when either field is missing or malformed.
pub fn decode_delivery_event(payload: &[u8]) -> (r: Option<(i32, Vec<u8>)>)
    ensures
        match r {
            Some((id, d)) => order_id_of(payload@) == Some(id as int) && delivery_id_of(payload@)
                == Some(d@),
            None => order_id_of(payload@) is None || delivery_id_of(payload@) is None,
        },
{
    let ps = match parse_payload_x(payload) {
        Some(x) => x,
        None => {
            return None;
        },
    };
    let id: i32 = match pairs_get(&ps, ("order_id").as_bytes()) {
        Some(sc) => match sc {
            JsonScalar::IntVal(v) => {
                if *v >= (i32::MIN as i64) && *v <= (i32::MAX as i64) {
                    *v as i32
                } else {
                    return None;
                }
            },
            JsonScalar::StrVal(_) => {
                return None;
            },
        },
        None => {
            return None;
        },
    };
    match pairs_get(&ps, ("delivery_id").as_bytes()) {
        Some(sc) => match sc {
            JsonScalar::StrVal(b) => Some((id, crate::models::copy_bytes(b))),
            JsonScalar::IntVal(_) => None,
        },
        None => None,
    }
}

} // verus!

