//! Error taxonomy of the saga core.
//!
//! Validation failures drop the message before any state change; conflicts
//! and not-found conditions drop it after no change as well; an insufficient
//! stock makes the warehouse publish a rollback outcome instead of applying
//! anything.

use vstd::prelude::*;

verus! {

#[derive(Clone, Copy, PartialEq, Eq, Structural, Debug)]
pub enum SagaError {
    /// The payload is not well-formed against the schema of its operation.
    Validation,
    /// The envelope lacks `user_id` or `order_id` where one is required.
    MissingCorrelationKey,
    /// The envelope names no operation at all.
    MissingOperation,
    /// The operation tag, or a per-good operation tag, is not supported here.
    UnknownOperation,
    /// A shadow for this order is already in flight.
    TransactionConflict,
    /// The live order this message speaks about does not exist.
    OrderNotFound,
    /// The warehouse holds no record for this good.
    GoodNotFound(u64),
    /// The warehouse holds fewer items of this good than requested.
    InsufficientStock(u64),
    /// The order was already billed; billing advances the status only once.
    AlreadyPayed,
    /// A stored field that must spell a number does not, or the arithmetic
    /// on it would leave the machine range.
    CorruptRecord,
}

} // verus!
