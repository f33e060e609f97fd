//! Saga messages.
//!
//! A message arrives as string headers and a body; the router works on a
//! parsed envelope with named fields and a closed operation tag, so a
//! missing correlation key is a typed error, never a lookup panic. Outcome
//! messages name their topic by role; the transport maps roles to
//! configured topic names.

use vstd::prelude::*;
use crate::errors::SagaError;

verus! {

/// The closed set of operation tags carried in message headers.
#[derive(Clone, Copy, PartialEq, Eq, Structural, Debug)]
pub enum Operation {
    Create,
    Update,
    Delete,
    Commit,
    Rollback,
    MakeBilling,
}

/// The wire tag of each operation.
pub open spec fn operation_tag(op: Operation) -> Seq<char> {
    match op {
        Operation::Create => "create"@,
        Operation::Update => "update"@,
        Operation::Delete => "delete"@,
        Operation::Commit => "commit"@,
        Operation::Rollback => "rollout"@,
        Operation::MakeBilling => "make_billing"@,
    }
}

pub open spec fn operation_of_tag(s: Seq<char>) -> Option<Operation> {
    if s == "create"@ {
        Some(Operation::Create)
    } else if s == "update"@ {
        Some(Operation::Update)
    } else if s == "delete"@ {
        Some(Operation::Delete)
    } else if s == "commit"@ {
        Some(Operation::Commit)
    } else if s == "rollout"@ {
        Some(Operation::Rollback)
    } else if s == "make_billing"@ {
        Some(Operation::MakeBilling)
    } else {
        None
    }
}

pub fn operation_name(op: Operation) -> (s: String)
    ensures
        s@ == operation_tag(op),
{
    match op {
        Operation::Create => String::from_str("create"),
        Operation::Update => String::from_str("update"),
        Operation::Delete => String::from_str("delete"),
        Operation::Commit => String::from_str("commit"),
        Operation::Rollback => String::from_str("rollout"),
        Operation::MakeBilling => String::from_str("make_billing"),
    }
}

pub fn parse_operation(s: &String) -> (r: Option<Operation>)
    ensures
        r == operation_of_tag(s@),
{
    if *s == String::from_str("create") {
        Some(Operation::Create)
    } else if *s == String::from_str("update") {
        Some(Operation::Update)
    } else if *s == String::from_str("delete") {
        Some(Operation::Delete)
    } else if *s == String::from_str("commit") {
        Some(Operation::Commit)
    } else if *s == String::from_str("rollout") {
        Some(Operation::Rollback)
    } else if *s == String::from_str("make_billing") {
        Some(Operation::MakeBilling)
    } else {
        None
    }
}

/// The topics of the choreography, by role.
#[derive(Clone, Copy, PartialEq, Eq, Structural, Debug)]
pub enum Topic {
    Orders,
    Warehouse,
    Transactions,
    Billing,
}

/// A parsed inbound message.
#[derive(Debug)]
pub struct Envelope {
    pub operation: Operation,
    pub user_id: String,
    pub order_id: Option<String>,
    pub payload: String,
}

/// One outbound message a handler produces.
#[derive(Debug)]
pub struct OutMessage {
    pub topic: Topic,
    pub key: Option<String>,
    pub operation: Operation,
    pub user_id: String,
    pub order_id: String,
    pub payload: Option<String>,
}

/// The value of the last header with this name, as the transport keeps the
/// last occurrence on duplicates.
pub open spec fn header_val(hs: Seq<(Seq<char>, Seq<char>)>, name: Seq<char>) -> Option<
    Seq<char>,
>
    decreases hs.len(),
{
    if hs.len() == 0 {
        None
    } else if hs.last().0 == name {
        Some(hs.last().1)
    } else {
        header_val(hs.drop_last(), name)
    }
}

pub open spec fn abs_headers(hs: Seq<(String, String)>) -> Seq<(Seq<char>, Seq<char>)> {
    hs.map_values(|p: (String, String)| (p.0@, p.1@))
}

/// What envelope a header list denotes, or which typed error it earns:
/// no operation header, an unknown tag, or a missing correlation key —
/// `user_id` always, `order_id` for everything but a create.
pub open spec fn envelope_of(hs: Seq<(Seq<char>, Seq<char>)>) -> Result<
    (Operation, Seq<char>, Option<Seq<char>>),
    SagaError,
> {
    match header_val(hs, "operation"@) {
        None => Err(SagaError::MissingOperation),
        Some(tag) => match operation_of_tag(tag) {
            None => Err(SagaError::UnknownOperation),
            Some(op) => match header_val(hs, "user_id"@) {
                None => Err(SagaError::MissingCorrelationKey),
                Some(u) => {
                    let oid = header_val(hs, "order_id"@);
                    if !(op is Create) && oid is None {
                        Err(SagaError::MissingCorrelationKey)
                    } else {
                        Ok((op, u, oid))
                    }
                },
            },
        },
    }
}

/// Parses the headers of an inbound message into an envelope.
pub fn parse_envelope(headers: &Vec<(String, String)>, payload: String) -> (r: Result<
    Envelope,
    SagaError,
>)
    ensures
        r is Ok <==> envelope_of(abs_headers(headers@)) is Ok,
        r is Ok ==> {
            let e = envelope_of(abs_headers(headers@))->Ok_0;
            &&& r->Ok_0.operation == e.0
            &&& r->Ok_0.user_id@ == e.1
            &&& (r->Ok_0.order_id is Some <==> e.2 is Some)
            &&& r->Ok_0.order_id is Some ==> r->Ok_0.order_id->0@ == e.2->0
            &&& r->Ok_0.payload@ == payload@
        },
        r is Err ==> r->Err_0 == envelope_of(abs_headers(headers@))->Err_0,
{
    let ghost hs = abs_headers(headers@);
    let op_h = String::from_str("operation");
    let uid_h = String::from_str("user_id");
    let oid_h = String::from_str("order_id");
    let n = headers.len();
    let mut tag: Option<String> = None;
    let mut uid: Option<String> = None;
    let mut oid: Option<String> = None;
    let mut i: usize = 0;
    proof {
        assert(hs.take(0) =~= Seq::<(Seq<char>, Seq<char>)>::empty());
    }
    while i < n
        invariant
            n == headers@.len(),
            hs == abs_headers(headers@),
            op_h@ == "operation"@ && uid_h@ == "user_id"@ && oid_h@ == "order_id"@,
            0 <= i <= n,
            tag is Some <==> header_val(hs.take(i as int), "operation"@) is Some,
            tag is Some ==> tag->0@ == header_val(hs.take(i as int), "operation"@)->0,
            uid is Some <==> header_val(hs.take(i as int), "user_id"@) is Some,
            uid is Some ==> uid->0@ == header_val(hs.take(i as int), "user_id"@)->0,
            oid is Some <==> header_val(hs.take(i as int), "order_id"@) is Some,
            oid is Some ==> oid->0@ == header_val(hs.take(i as int), "order_id"@)->0,
        decreases n - i,
    {
        proof {
            reveal_strlit("operation");
            reveal_strlit("user_id");
            reveal_strlit("order_id");
            assert(hs.take(i as int + 1).drop_last() =~= hs.take(i as int));
            assert(hs.take(i as int + 1).last() == hs[i as int]);
        }
        if headers[i].0 == op_h {
            tag = Some(headers[i].1.clone());
        } else if headers[i].0 == uid_h {
            uid = Some(headers[i].1.clone());
        } else if headers[i].0 == oid_h {
            oid = Some(headers[i].1.clone());
        }
        proof {
            assert(hs[i as int].0 == headers@[i as int].0@);
            assert(hs[i as int].1 == headers@[i as int].1@);
            assert(header_val(hs.take(i as int + 1), "operation"@) == (if hs[i as int].0
                == "operation"@ {
                Some(hs[i as int].1)
            } else {
                header_val(hs.take(i as int), "operation"@)
            }));
            assert(header_val(hs.take(i as int + 1), "user_id"@) == (if hs[i as int].0
                == "user_id"@ {
                Some(hs[i as int].1)
            } else {
                header_val(hs.take(i as int), "user_id"@)
            }));
            assert(header_val(hs.take(i as int + 1), "order_id"@) == (if hs[i as int].0
                == "order_id"@ {
                Some(hs[i as int].1)
            } else {
                header_val(hs.take(i as int), "order_id"@)
            }));
        }
        i = i + 1;
    }
    proof {
        assert(hs.take(n as int) =~= hs);
    }
    let tag = match tag {
        None => {
            return Err(SagaError::MissingOperation);
        },
        Some(t) => t,
    };
    let op = match parse_operation(&tag) {
        None => {
            return Err(SagaError::UnknownOperation);
        },
        Some(op) => op,
    };
    let user_id = match uid {
        None => {
            return Err(SagaError::MissingCorrelationKey);
        },
        Some(u) => u,
    };
    let is_create = match op {
        Operation::Create => true,
        _ => false,
    };
    if !is_create && oid.is_none() {
        return Err(SagaError::MissingCorrelationKey);
    }
    Ok(Envelope { operation: op, user_id, order_id: oid, payload })
}

} // verus!
