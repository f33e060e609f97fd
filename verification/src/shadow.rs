//! Shadow transaction manager.
//!
//! A shadow is a provisional copy of a live order record, created by the
//! store's atomic copy primitive when a mutation begins. The copy refuses to
//! run while a shadow exists, which serializes mutations per order without a
//! lock service; a deadline on every shadow lets an abandoned saga heal
//! itself. Commit promotes the shadow to the live key, rollback discards it.

use vstd::prelude::*;
use crate::errors::SagaError;
use crate::store::{AbsKey, CopyOutcome, Key, OrderId, RecordStore, RecordV, order_key, shadow_key};

verus! {

/// Bounded lifetime of an unresolved shadow, in seconds.
pub const SHADOW_TTL_SECS: u64 = 30;

/// What `begin` decides, given the records live at the instant it runs.
pub open spec fn begin_result(
    live: Map<AbsKey, Map<Seq<char>, Seq<char>>>,
    id: (Seq<char>, Seq<char>),
) -> Result<(), SagaError> {
    if live.contains_key(shadow_key(id)) {
        Err(SagaError::TransactionConflict)
    } else if !live.contains_key(order_key(id)) {
        Err(SagaError::OrderNotFound)
    } else {
        Ok(())
    }
}

/// Begins a mutation of the order `id`: copies the live order to its shadow
/// key in one atomic step and puts a deadline on the copy. Fails with a
/// conflict while another mutation is in flight, and with not-found when the
/// live order is missing; a failure changes nothing.
pub fn begin(store: &mut RecordStore, id: &OrderId, now: u64, ttl: u64) -> (r: Result<
    (),
    SagaError,
>)
    requires
        old(store).wf(),
        1 <= ttl,
        now + ttl <= u64::MAX,
    ensures
        final(store).wf(),
        r == begin_result(old(store).live(now), id@),
        r is Ok ==> final(store).raw() == old(store).raw().insert(
            shadow_key(id@),
            RecordV {
                fields: old(store).live(now)[order_key(id@)],
                expires_at: Some((now + ttl) as u64),
            },
        ),
        r is Err ==> final(store).raw() == old(store).raw(),
{
    let src = Key::Order(id.duplicate());
    let dst = Key::Shadow(id.duplicate());
    let outcome = store.copy_atomic(&src, &dst, now);
    match outcome {
        CopyOutcome::AlreadyExists => Err(SagaError::TransactionConflict),
        CopyOutcome::SourceMissing => Err(SagaError::OrderNotFound),
        CopyOutcome::Copied => {
            let ghost mid = *store;
            store.expire(&dst, now + ttl, now);
            proof {
                assert(mid.live(now).contains_key(dst@));
                assert(mid.raw()[dst@].fields == old(store).live(now)[order_key(id@)]);
                assert(store.raw() =~= old(store).raw().insert(
                    shadow_key(id@),
                    RecordV {
                        fields: old(store).live(now)[order_key(id@)],
                        expires_at: Some((now + ttl) as u64),
                    },
                ));
            }
            Ok(())
        },
    }
}

/// Discards the shadow of order `id`. Idempotent: discarding an absent
/// shadow changes nothing and is no error.
pub fn rollback(store: &mut RecordStore, id: &OrderId)
    requires
        old(store).wf(),
    ensures
        final(store).wf(),
        final(store).raw() == old(store).raw().remove(shadow_key(id@)),
{
    store.del(&Key::Shadow(id.duplicate()));
}

/// Concludes the saga for order `id`. With `delete_instead` the live order is
/// deleted outright; otherwise the live order is replaced by the shadow's
/// fields in one delete-and-copy step, which is skipped when no shadow is
/// live. The shadow is always deleted afterwards, so no transaction state
/// can leak.
pub fn commit(store: &mut RecordStore, id: &OrderId, delete_instead: bool, now: u64)
    requires
        old(store).wf(),
    ensures
        final(store).wf(),
        delete_instead ==> final(store).raw() == old(store).raw().remove(order_key(id@)).remove(
            shadow_key(id@),
        ),
        !delete_instead && old(store).live(now).contains_key(shadow_key(id@)) ==> final(store).raw() == old(store).raw().insert(
            order_key(id@),
            RecordV { fields: old(store).live(now)[shadow_key(id@)], expires_at: None },
        ).remove(shadow_key(id@)),
        !delete_instead && !old(store).live(now).contains_key(shadow_key(id@)) ==> final(store).raw() == old(store).raw().remove(shadow_key(id@)),
        // the promoted order carries exactly the shadow's fields, and no
        // shadow survives a commit
        !delete_instead && old(store).live(now).contains_key(shadow_key(id@)) ==> {
            &&& !final(store).live(now).contains_key(shadow_key(id@))
            &&& final(store).live(now).contains_key(order_key(id@))
            &&& final(store).live(now)[order_key(id@)] == old(store).live(now)[shadow_key(id@)]
        },
{
    let ok = Key::Order(id.duplicate());
    let sk = Key::Shadow(id.duplicate());
    if delete_instead {
        store.del(&ok);
    } else {
        if store.exists_key(&sk, now) {
            let ghost pre = *store;
            store.del(&ok);
            proof {
                assert(store.live(now).contains_key(sk@));
                assert(store.live(now)[sk@] == pre.live(now)[sk@]);
                assert(!store.live(now).contains_key(ok@));
            }
            let outcome = store.copy_atomic(&sk, &ok, now);
            proof {
                assert(outcome == CopyOutcome::Copied);
                assert(store.raw() =~= pre.raw().insert(
                    order_key(id@),
                    RecordV { fields: pre.live(now)[shadow_key(id@)], expires_at: None },
                ));
            }
        }
    }
    let ghost before_sk = *store;
    store.del(&sk);
    proof {
        if !delete_instead && old(store).live(now).contains_key(shadow_key(id@)) {
            assert(store.raw() =~= old(store).raw().insert(
                order_key(id@),
                RecordV { fields: old(store).live(now)[shadow_key(id@)], expires_at: None },
            ).remove(shadow_key(id@)));
            assert(!store.live(now).contains_key(shadow_key(id@)));
            assert(store.live(now).contains_key(order_key(id@)));
            assert(store.live(now)[order_key(id@)] == old(store).live(now)[shadow_key(id@)]);
        }
    }
}

/// Single-shadow serialization: once one `begin` has succeeded on an order,
/// a second `begin` on the same order at the same instant reports a
/// transaction conflict.
pub proof fn lemma_single_shadow(
    pre: RecordStore,
    post: RecordStore,
    id: (Seq<char>, Seq<char>),
    now: u64,
    ttl: u64,
)
    requires
        begin_result(pre.live(now), id) is Ok,
        1 <= ttl,
        now + ttl <= u64::MAX,
        post.raw() == pre.raw().insert(
            shadow_key(id),
            RecordV {
                fields: pre.live(now)[order_key(id)],
                expires_at: Some((now + ttl) as u64),
            },
        ),
    ensures
        begin_result(post.live(now), id) == Err::<(), SagaError>(SagaError::TransactionConflict),
{
    assert(post.live(now).contains_key(shadow_key(id)));
}

/// Rollback is idempotent: discarding the same shadow twice leaves exactly
/// the state that one discard leaves.
pub proof fn lemma_rollback_idempotent(raw0: Map<AbsKey, RecordV>, id: (Seq<char>, Seq<char>))
    ensures
        raw0.remove(shadow_key(id)).remove(shadow_key(id)) == raw0.remove(shadow_key(id)),
{
    assert(raw0.remove(shadow_key(id)).remove(shadow_key(id)) =~= raw0.remove(shadow_key(id)));
}

/// Self-healing by deadline: a shadow whose deadline has passed is absent,
/// and a new `begin` on its order succeeds again provided the live order is
/// still there.
pub proof fn lemma_ttl_self_heal(
    s: RecordStore,
    id: (Seq<char>, Seq<char>),
    deadline: u64,
    t: u64,
)
    requires
        s.raw().contains_key(shadow_key(id)),
        s.deadline_of(shadow_key(id)) == Some(deadline),
        deadline <= t,
        s.raw().contains_key(order_key(id)),
        s.deadline_of(order_key(id)) is None,
    ensures
        !s.live(t).contains_key(shadow_key(id)),
        begin_result(s.live(t), id) is Ok,
{
}

} // verus!
