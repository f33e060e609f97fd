//! The billing participant.
//!
//! Billing is the terminal, status-gated step of the saga: once an order is
//! committed, a billing message advances it from `created` to `payed`,
//! exactly once, and never while a mutation of the order is still in
//! flight. The body is validated against the billing schema before any
//! record is touched.

use vstd::prelude::*;
use crate::errors::SagaError;
use crate::message::OutMessage;
use crate::orders::{billing_outcome, make_billing};
use crate::payload::{billing_id, fst, parse_billing_payload, snd};
use crate::store::{OrderId, RecordStore};

verus! {

/// A validated billing request: the number of the order it bills.
pub struct CreateBilling {
    pub id: u64,
}

impl CreateBilling {
    /// Advances the order to `payed`: refused while a shadow is in flight,
    /// and an order is billed at most once.
    pub fn create(&self, id: &OrderId, store: &mut RecordStore, now: u64) -> (r: Result<
        (),
        SagaError,
    >)
        requires
            old(store).wf(),
        ensures
            final(store).wf(),
            r == fst(billing_outcome(*old(store), id@, now)),
            final(store).raw() == snd(billing_outcome(*old(store), id@, now)),
    {
        make_billing(store, id, now)
    }
}

/// The message router of the billing participant.
pub struct BillingContext;

impl BillingContext {
    /// Dispatches one billing message: the body must pass the billing
    /// schema before any record is touched; the step itself is terminal and
    /// produces no further message.
    pub fn handle(
        &self,
        store: &mut RecordStore,
        user_id: &String,
        order_id: &String,
        payload: &String,
        now: u64,
    ) -> (r: Result<Option<OutMessage>, SagaError>)
        requires
            old(store).wf(),
        ensures
            final(store).wf(),
            billing_id(payload@) is None ==> r == Err::<Option<OutMessage>, SagaError>(
                SagaError::Validation,
            ) && final(store).raw() == old(store).raw(),
            billing_id(payload@) is Some ==> {
                let oc = billing_outcome(*old(store), (user_id@, order_id@), now);
                &&& final(store).raw() == snd(oc)
                &&& (r is Err <==> fst(oc) is Err)
                &&& r is Err ==> r->Err_0 == fst(oc)->Err_0
                &&& r is Ok ==> r->Ok_0 is None
            },
    {
        let bid = match parse_billing_payload(payload.as_str()) {
            None => {
                return Err(SagaError::Validation);
            },
            Some(b) => b,
        };
        let billing = CreateBilling { id: bid };
        let id = OrderId::new(user_id.clone(), order_id.clone());
        match billing.create(&id, store, now) {
            Err(e) => Err(e),
            Ok(()) => Ok(None),
        }
    }
}

} // verus!
