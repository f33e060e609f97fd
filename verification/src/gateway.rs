//! The gateway's message construction.
//!
//! The gateway republishes client requests as saga messages. The partition
//! key is a digest of the correlation keys and the body, so every message
//! of one order lands on one partition and its shadow state machine is
//! observed in a single consistent order.

use vstd::prelude::*;
use crypto::digest::Digest;
use crypto::sha2::Sha256;
use crate::message::{Operation, OutMessage, Topic};

verus! {

/// The lowercase hex SHA-256 digest of the UTF-8 bytes of a text.
pub uninterp spec fn sha256_hex_of(s: Seq<char>) -> Seq<char>;

/// Relies on crypto's Sha256 (the Digest trait): feeding the three parts in
/// order digests their concatenation, and `result_str` returns its lowercase
/// hex form — a function of the input text alone.
#[verifier::external_body]
fn sha256_hex(a: &str, b: &str, c: &str) -> (r: String)
    ensures
        r@ == sha256_hex_of(a@ + b@ + c@),
{
    let mut h = Sha256::new();
    h.input(a.as_bytes());
    h.input(b.as_bytes());
    h.input(c.as_bytes());
    h.result_str()
}

/// The deterministic partition key of one request: the digest of user id,
/// order id (empty for a create, which has none yet) and body.
pub fn partition_key(user_id: &String, order_id: Option<&String>, payload: &String) -> (r:
    String)
    ensures
        r@ == sha256_hex_of(
            user_id@ + (match order_id {
                Some(o) => o@,
                None => Seq::<char>::empty(),
            }) + payload@,
        ),
{
    match order_id {
        Some(o) => sha256_hex(user_id.as_str(), o.as_str(), payload.as_str()),
        None => {
            let r = sha256_hex(user_id.as_str(), "", payload.as_str());
            proof {
                reveal_strlit("");
                assert(""@ =~= Seq::<char>::empty());
            }
            r
        },
    }
}

/// Builds the saga message the gateway publishes for one client request:
/// create, update and delete go to the orders topic, billing to the billing
/// topic, each keyed by the request's partition key and carrying the body
/// unchanged.
pub fn publish_request(
    op: Operation,
    user_id: &String,
    order_id: Option<&String>,
    payload: &String,
) -> (m: OutMessage)
    ensures
        m.topic == (if op is MakeBilling {
            Topic::Billing
        } else {
            Topic::Orders
        }),
        m.operation == op,
        m.user_id@ == user_id@,
        m.order_id@ == (match order_id {
            Some(o) => o@,
            None => Seq::<char>::empty(),
        }),
        m.payload is Some && m.payload->0@ == payload@,
        m.key is Some && m.key->0@ == sha256_hex_of(
            user_id@ + (match order_id {
                Some(o) => o@,
                None => Seq::<char>::empty(),
            }) + payload@,
        ),
{
    let key = partition_key(user_id, order_id, payload);
    let topic = match op {
        Operation::MakeBilling => Topic::Billing,
        _ => Topic::Orders,
    };
    let oid = match order_id {
        Some(o) => o.clone(),
        None => String::new(),
    };
    OutMessage {
        topic,
        key: Some(key),
        operation: op,
        user_id: user_id.clone(),
        order_id: oid,
        payload: Some(payload.clone()),
    }
}

} // verus!
