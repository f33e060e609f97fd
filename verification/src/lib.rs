//! Core of a choreographed order-fulfillment saga: a keyed record store with
//! an atomic copy primitive, a shadow-transaction manager, an inventory
//! reservation engine, message-payload validation and the per-participant
//! message routers, together with proofs of the protocol's key properties.

pub mod assoc;
pub mod billing;
pub mod config;
pub mod errors;
pub mod gateway;
pub mod inventory;
pub mod message;
pub mod num;
pub mod orders;
pub mod payload;
pub mod records;
pub mod shadow;
pub mod store;
pub mod warehouse;
