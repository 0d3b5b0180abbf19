//! Row types of the service's tables, with their mathematical views.
//!
//! Timestamps are kept as integer ticks, money as integer cents, and the
//! delivery-address snapshot as the raw bytes that were captured at order
//! creation; identifiers are plain integers.
use vstd::prelude::*;

use crate::status::{OrderStatus, OutboxStatus, PaymentStatus};

verus! {

// Carts

#[derive(Clone, Copy, Debug, PartialEq, Eq, Structural)]
pub struct CartEntity {
    pub id: i32,
    pub patient_id: i32,
    pub created_at: i64,
    pub updated_at: i64,
}

pub ghost struct CartV {
    pub id: int,
    pub patient_id: int,
    pub created_at: int,
    pub updated_at: int,
}

impl View for CartEntity {
    type V = CartV;

    open spec fn view(&self) -> CartV {
        CartV {
            id: self.id as int,
            patient_id: self.patient_id as int,
            created_at: self.created_at as int,
            updated_at: self.updated_at as int,
        }
    }
}

#[derive(Clone, Copy, Debug, PartialEq, Eq, Structural)]
pub struct CartItemEntity {
    pub cart_id: i32,
    pub product_id: i32,
    pub quantity: i32,
    pub created_at: i64,
    pub updated_at: i64,
}

pub ghost struct CartItemV {
    pub cart_id: int,
    pub product_id: int,
    pub quantity: int,
    pub created_at: int,
    pub updated_at: int,
}

impl View for CartItemEntity {
    type V = CartItemV;

    open spec fn view(&self) -> CartItemV {
        CartItemV {
            cart_id: self.cart_id as int,
            product_id: self.product_id as int,
            quantity: self.quantity as int,
            created_at: self.created_at as int,
            updated_at: self.updated_at as int,
        }
    }
}

#[derive(Clone, Copy, Debug, PartialEq, Eq, Structural)]
pub struct CreateCartEntity {
    pub patient_id: i32,
}

#[derive(Clone, Copy, Debug, PartialEq, Eq, Structural)]
pub struct CreateCartItemEntity {
    pub cart_id: i32,
    pub product_id: i32,
    pub quantity: i32,
}

// Orders

#[derive(Debug)]
pub struct OrderEntity {
    pub id: i32,
    pub cart_id: i32,
    pub patient_id: i32,
    pub status: OrderStatus,
    pub order_type: Vec<u8>,
    pub delivery_id: Option<Vec<u8>>,
    pub delivery_address: Vec<u8>,
    pub created_at: i64,
    pub updated_at: i64,
    pub deleted_at: Option<i64>,
}

pub ghost struct OrderV {
    pub id: int,
    pub cart_id: int,
    pub patient_id: int,
    pub status: OrderStatus,
    pub order_type: Seq<u8>,
    pub delivery_id: Option<Seq<u8>>,
    pub delivery_address: Seq<u8>,
    pub created_at: int,
    pub updated_at: int,
    pub deleted_at: Option<int>,
}

impl View for OrderEntity {
    type V = OrderV;

    open spec fn view(&self) -> OrderV {
        OrderV {
            id: self.id as int,
            cart_id: self.cart_id as int,
            patient_id: self.patient_id as int,
            status: self.status,
            order_type: self.order_type@,
            delivery_id: match self.delivery_id {
                Some(d) => Some(d@),
                None => None,
            },
            delivery_address: self.delivery_address@,
            created_at: self.created_at as int,
            updated_at: self.updated_at as int,
            deleted_at: match self.deleted_at {
                Some(t) => Some(t as int),
                None => None,
            },
        }
    }
}

pub struct CreateOrderEntity {
    pub patient_id: i32,
    pub delivery_address: Vec<u8>,
    pub cart_id: i32,
    pub status: OrderStatus,
    pub order_type: Vec<u8>,
}

// Payments

#[derive(Debug)]
pub struct PaymentEntity {
    pub id: u128,
    pub order_id: i32,
    pub amount: i64,
    pub status: PaymentStatus,
    pub provider: String,
    pub provider_ref: Option<String>,
    pub failure_reason: Option<String>,
    pub created_at: i64,
    pub updated_at: i64,
}

pub ghost struct PaymentV {
    pub id: int,
    pub order_id: int,
    pub amount: int,
    pub status: PaymentStatus,
    pub provider: Seq<char>,
    pub provider_ref: Option<Seq<char>>,
    pub failure_reason: Option<Seq<char>>,
    pub created_at: int,
    pub updated_at: int,
}

impl View for PaymentEntity {
    type V = PaymentV;

    open spec fn view(&self) -> PaymentV {
        PaymentV {
            id: self.id as int,
            order_id: self.order_id as int,
            amount: self.amount as int,
            status: self.status,
            provider: self.provider@,
            provider_ref: match self.provider_ref {
                Some(ref s) => Some(s@),
                None => None,
            },
            failure_reason: match self.failure_reason {
                Some(ref s) => Some(s@),
                None => None,
            },
            created_at: self.created_at as int,
            updated_at: self.updated_at as int,
        }
    }
}

pub struct CreatePaymentEntity {
    pub order_id: i32,
    pub amount: i64,
    pub provider: String,
    pub status: PaymentStatus,
}

// Outbox

/// Routing keys this service produces through the outbox.
#[derive(Clone, Copy, Debug, PartialEq, Eq, Structural)]
pub enum EventType {
    InventoryReserveOrder,
    InventoryCancelOrder,
    DeliveryOrderRequest,
}

impl EventType {
    /// The routing key under which the relay publishes an entry.
    pub fn routing_key(self) -> (r: String)
        ensures
            r@ == self.routing_key_spec(),
    {
        match self {
            EventType::InventoryReserveOrder => "inventory.reserve_order".to_owned(),
            EventType::InventoryCancelOrder => "inventory.cancel_order".to_owned(),
            EventType::DeliveryOrderRequest => "delivery.order_request".to_owned(),
        }
    }

    pub open spec fn routing_key_spec(self) -> Seq<char> {
        match self {
            EventType::InventoryReserveOrder => "inventory.reserve_order"@,
            EventType::InventoryCancelOrder => "inventory.cancel_order"@,
            EventType::DeliveryOrderRequest => "delivery.order_request"@,
        }
    }
}

/// A row of the outbox table: written in the same atomic unit as the state
/// mutation it announces, drained by the relay.
#[derive(Debug)]
pub struct OutboxEntry {
    pub id: i64,
    pub event_type: EventType,
    pub payload: Vec<u8>,
    pub status: OutboxStatus,
    pub created_at: i64,
    pub updated_at: i64,
}

pub ghost struct OutboxEntryV {
    pub id: int,
    pub event_type: EventType,
    pub payload: Seq<u8>,
    pub status: OutboxStatus,
    pub created_at: int,
    pub updated_at: int,
}

impl View for OutboxEntry {
    type V = OutboxEntryV;

    open spec fn view(&self) -> OutboxEntryV {
        OutboxEntryV {
            id: self.id as int,
            event_type: self.event_type,
            payload: self.payload@,
            status: self.status,
            created_at: self.created_at as int,
            updated_at: self.updated_at as int,
        }
    }
}

// Delivery addresses

/// The point-in-time copy of a delivery address taken at order-creation
/// time: the recorded owner, and the serialized snapshot body that is
/// stored on the order and never re-fetched.
#[derive(Debug)]
pub struct AddressSnapshot {
    pub patient_id: i32,
    pub body: Vec<u8>,
}

// Copy helpers with exact contracts, used where an owned duplicate of a row
// must be handed out while the store keeps its own.

pub fn copy_bytes(v: &Vec<u8>) -> (r: Vec<u8>)
    ensures
        r@ == v@,
{
    let mut r: Vec<u8> = Vec::new();
    let mut i: usize = 0;
    while i < v.len()
        invariant
            i <= v.len(),
            r@ == v@.subrange(0, i as int),
        decreases v.len() - i,
    {
        r.push(v[i]);
        i = i + 1;
        proof {
            assert(r@ =~= v@.subrange(0, i as int));
        }
    }
    proof {
        assert(r@ =~= v@);
    }
    r
}

/// Byte-slice equality with an exact contract.
pub fn bytes_eq(a: &[u8], b: &[u8]) -> (r: bool)
    ensures
        r == (a@ == b@),
{
    if a.len() != b.len() {
        proof {
            assert(a@ != b@);
        }
        return false;
    }
    let mut i: usize = 0;
    while i < a.len()
        invariant
            a@.len() == b@.len(),
            i <= a@.len(),
            forall|k: int| 0 <= k < i ==> a@[k] == b@[k],
        decreases a@.len() - i,
    {
        if a[i] != b[i] {
            return false;
        }
        i = i + 1;
    }
    proof {
        assert(a@ =~= b@);
    }
    true
}

fn copy_opt_bytes(s: &Option<Vec<u8>>) -> (r: Option<Vec<u8>>)
    ensures
        match (r, s) {
            (Some(a), Some(b)) => a@ == b@,
            (None, None) => true,
            _ => false,
        },
{
    match s {
        Some(x) => Some(copy_bytes(x)),
        None => None,
    }
}

fn copy_opt_string(s: &Option<String>) -> (r: Option<String>)
    ensures
        match (r, s) {
            (Some(a), Some(b)) => a@ == b@,
            (None, None) => true,
            _ => false,
        },
{
    match s {
        Some(x) => Some(x.clone()),
        None => None,
    }
}

impl OrderEntity {
    /// An owned copy of the row, equal under the view.
    pub fn duplicate(&self) -> (r: OrderEntity)
        ensures
            r@ == self@,
    {
        OrderEntity {
            id: self.id,
            cart_id: self.cart_id,
            patient_id: self.patient_id,
            status: self.status,
            order_type: copy_bytes(&self.order_type),
            delivery_id: copy_opt_bytes(&self.delivery_id),
            delivery_address: copy_bytes(&self.delivery_address),
            created_at: self.created_at,
            updated_at: self.updated_at,
            deleted_at: self.deleted_at,
        }
    }
}

impl PaymentEntity {
    /// An owned copy of the row, equal under the view.
    pub fn duplicate(&self) -> (r: PaymentEntity)
        ensures
            r@ == self@,
    {
        PaymentEntity {
            id: self.id,
            order_id: self.order_id,
            amount: self.amount,
            status: self.status,
            provider: self.provider.clone(),
            provider_ref: copy_opt_string(&self.provider_ref),
            failure_reason: copy_opt_string(&self.failure_reason),
            created_at: self.created_at,
            updated_at: self.updated_at,
        }
    }
}

} // verus!
