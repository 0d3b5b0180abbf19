//! Order-management core: the order/payment state machine, conditional
//! updates against a store model, the transactional outbox writer, the
//! pricing computation, and the event-consumption pipeline.
use vstd::prelude::*;

pub mod api;
pub mod carts;
pub mod codec;
pub mod consumers;
pub mod models;
pub mod orders;
pub mod payments;
pub mod pricing;
pub mod status;
pub mod store;

verus! {

/// Typed outcome of a request-path operation, mirroring the error taxonomy of
/// the service boundary: a conditional update that matched zero rows is
/// `NotFound`, an ownership failure is `ForbiddenResource`, invalid client
/// input is `BadRequest`, an unreachable sibling service is
/// `ServiceUnreachable`, and a database error that aborted the surrounding
/// transaction is `TransactionFailed`.
#[derive(Clone, Copy, Debug, PartialEq, Eq, Structural)]
pub enum AppError {
    NotFound,
    ForbiddenResource,
    BadRequest,
    ServiceUnreachable,
    TransactionFailed,
}

} // verus!
