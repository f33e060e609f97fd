//! The warehouse participant.
//!
//! For every correlatable inbound message the warehouse produces exactly one
//! outcome on the transactions topic: `commit` when its local step applied,
//! `rollout` when anything — schema, missing good, short stock — refused it;
//! a refusal changes no stock count at all, so the rollback outcome is the
//! compensation path the saga relies on.

use vstd::prelude::*;
use crate::errors::SagaError;
use crate::inventory::{adjust, adjust_outcome, release, release_outcome, reserve,
    reserve_outcome, GoodAdj, GoodReq};
use crate::message::{Envelope, Operation, OutMessage, Topic};
use crate::payload::{adjust_goods, create_goods};
use crate::store::RecordStore;

verus! {

/// A validated reservation request: the goods a new order asks for.
pub struct CreateOrder {
    pub goods: Vec<GoodReq>,
}

impl CreateOrder {
    /// Reserves the requested goods, all or nothing.
    pub fn create(&self, store: &mut RecordStore, now: u64) -> (r: Result<(), SagaError>)
        requires
            old(store).wf(),
            crate::inventory::distinct_req_ids(self.goods@),
        ensures
            final(store).wf(),
            r == reserve_outcome(old(store).live(now), self.goods@),
            r is Err ==> final(store).raw() == old(store).raw(),
    {
        reserve(store, &self.goods, now)
    }
}

/// A validated adjustment request: the net deltas of an update saga.
pub struct UpdateOrder {
    pub goods: Vec<GoodAdj>,
}

impl UpdateOrder {
    /// Applies the net deltas, all or nothing.
    pub fn update(&self, store: &mut RecordStore, now: u64) -> (r: Result<(), SagaError>)
        requires
            old(store).wf(),
            crate::inventory::distinct_adj_ids(self.goods@),
        ensures
            final(store).wf(),
            r == adjust_outcome(old(store).live(now), self.goods@),
            r is Err ==> final(store).raw() == old(store).raw(),
    {
        adjust(store, &self.goods, now)
    }
}

/// Credits a deleted order's goods back to stock.
pub fn delete_order(store: &mut RecordStore, goods: &Vec<GoodReq>, now: u64) -> (r: Result<
    (),
    SagaError,
>)
    requires
        old(store).wf(),
        crate::inventory::distinct_req_ids(goods@),
    ensures
        final(store).wf(),
        r == release_outcome(old(store).live(now), goods@),
        r is Err ==> final(store).raw() == old(store).raw(),
{
    release(store, goods, now)
}

/// Reads one good's count for the read-only query path.
pub fn get_good(store: &RecordStore, id: u64, now: u64) -> (r: Option<u64>)
    requires
        store.wf(),
    ensures
        r is Some <==> crate::inventory::stock_numeric(store.live(now), id),
        r is Some ==> r->0 as int == crate::inventory::stock_val(store.live(now), id),
{
    let key = crate::store::Key::Good(id);
    match store.hget(&key, &crate::records::count_field_name(), now) {
        None => None,
        Some(text) => crate::num::parse_u64(text.as_str()),
    }
}

/// What the warehouse's local step decides for one message: the body is
/// validated against the schema of its operation before anything is
/// written, and only the three forward operations are its to apply.
pub open spec fn warehouse_step(
    pre: RecordStore,
    op: Operation,
    payload: Seq<char>,
    now: u64,
) -> Result<(), SagaError> {
    match op {
        Operation::Create => match create_goods(payload) {
            None => Err(SagaError::Validation),
            Some(gs) => reserve_outcome(pre.live(now), gs),
        },
        Operation::Update => match adjust_goods(payload) {
            None => Err(SagaError::Validation),
            Some(gs) => adjust_outcome(pre.live(now), gs),
        },
        Operation::Delete => match create_goods(payload) {
            None => Err(SagaError::Validation),
            Some(gs) => release_outcome(pre.live(now), gs),
        },
        _ => Err(SagaError::UnknownOperation),
    }
}

/// The message router of the warehouse participant.
pub struct WarehouseContext;

impl WarehouseContext {
    /// Dispatches one inbound message and produces exactly one outcome for
    /// the transactions topic, carrying the correlation keys: `commit` when
    /// the step applied, `rollout` when it refused — and a refusal leaves
    /// every record as it was. Only a message without its correlation key
    /// produces no outcome at all.
    pub fn handle(&self, store: &mut RecordStore, env: &Envelope, now: u64) -> (r: Result<
        OutMessage,
        SagaError,
    >)
        requires
            old(store).wf(),
        ensures
            final(store).wf(),
            env.order_id is None ==> r == Err::<OutMessage, SagaError>(
                SagaError::MissingCorrelationKey,
            ) && final(store).raw() == old(store).raw(),
            env.order_id is Some ==> {
                let step = warehouse_step(*old(store), env.operation, env.payload@, now);
                &&& r is Ok
                &&& r->Ok_0.topic == Topic::Transactions
                &&& r->Ok_0.user_id@ == env.user_id@
                &&& r->Ok_0.order_id@ == env.order_id->0@
                &&& r->Ok_0.payload is None
                &&& (r->Ok_0.operation == Operation::Commit <==> step is Ok)
                &&& (step is Ok || r->Ok_0.operation == Operation::Rollback)
                &&& (step is Err ==> final(store).raw() == old(store).raw())
            },
    {
        let oid = match &env.order_id {
            None => {
                return Err(SagaError::MissingCorrelationKey);
            },
            Some(o) => o,
        };
        let applied: Result<(), SagaError> = match env.operation {
            Operation::Create => {
                match crate::payload::parse_create_payload(env.payload.as_str()) {
                    None => Err(SagaError::Validation),
                    Some(goods) => {
                        let req = CreateOrder { goods };
                        req.create(store, now)
                    },
                }
            },
            Operation::Update => {
                match crate::payload::parse_adjust_payload(env.payload.as_str()) {
                    None => Err(SagaError::Validation),
                    Some(goods) => {
                        let upd = UpdateOrder { goods };
                        upd.update(store, now)
                    },
                }
            },
            Operation::Delete => {
                match crate::payload::parse_create_payload(env.payload.as_str()) {
                    None => Err(SagaError::Validation),
                    Some(goods) => delete_order(store, &goods, now),
                }
            },
            _ => Err(SagaError::UnknownOperation),
        };
        let outcome_op = match applied {
            Ok(()) => Operation::Commit,
            Err(_) => Operation::Rollback,
        };
        Ok(
            OutMessage {
                topic: Topic::Transactions,
                key: None,
                operation: outcome_op,
                user_id: env.user_id.clone(),
                order_id: oid.clone(),
                payload: None,
            },
        )
    }
}

} // verus!
