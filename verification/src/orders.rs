//! The orders participant.
//!
//! Every mutation of an order runs through a shadow: a create writes the new
//! order as a shadow straight away, an update copies the live order and
//! edits the copy, a delete copies it and marks the copy deleted. The live
//! record changes only when the warehouse's outcome message commits the
//! shadow; a rollback outcome, or the shadow's deadline, discards it. The
//! billing step advances a settled order to payed.

use vstd::prelude::*;
use crate::errors::SagaError;
use crate::message::{Envelope, Operation, OutMessage, Topic};
use crate::inventory::{GoodAdj, GoodOp, GoodReq, GoodUpd, distinct_req_ids};
use crate::num::{all_digits, dec_of, dec_val, parse_u64, u64_to_dec};
use crate::payload::{fst, snd};
use crate::records::{counter_field, counter_field_name, good_field, good_field_name,
    lemma_good_field_not_status, order_fields, status_field, status_field_name, status_name,
    status_text, Status};
use crate::shadow::{begin, commit, rollback};
use crate::store::{AbsKey, Key, OrderId, RecordStore, RecordV, order_key, shadow_key};

verus! {

/// The number the order counter shows: zero before the first order; `None`
/// on a counter record that does not spell a number.
pub open spec fn counter_val(live: Map<AbsKey, Map<Seq<char>, Seq<char>>>) -> Option<int> {
    if !live.contains_key(AbsKey::Counter) {
        Some(0)
    } else if live[AbsKey::Counter].contains_key(counter_field()) && {
        let v = live[AbsKey::Counter][counter_field()];
        v.len() > 0 && all_digits(v) && dec_val(v) <= u64::MAX
    } {
        Some(dec_val(live[AbsKey::Counter][counter_field()]))
    } else {
        None
    }
}

/// The store after the counter advanced to `nid`.
pub open spec fn bumped_raw(pre: RecordStore, now: u64, nid: nat) -> Map<AbsKey, RecordV> {
    if pre.live(now).contains_key(AbsKey::Counter) {
        pre.raw().insert(
            AbsKey::Counter,
            RecordV {
                fields: pre.raw()[AbsKey::Counter].fields.insert(counter_field(), dec_of(nid)),
                expires_at: pre.raw()[AbsKey::Counter].expires_at,
            },
        )
    } else {
        pre.raw().insert(
            AbsKey::Counter,
            RecordV {
                fields: Map::<Seq<char>, Seq<char>>::empty().insert(counter_field(), dec_of(nid)),
                expires_at: None,
            },
        )
    }
}

/// What a create decides and leaves behind: a corrupt or exhausted counter
/// refuses and changes nothing; otherwise the counter advances, and the new
/// order's shadow is written under the fresh number unless a record for
/// that number already exists.
pub open spec fn create_outcome(
    pre: RecordStore,
    user: Seq<char>,
    goods: Seq<GoodReq>,
    now: u64,
    ttl: u64,
) -> (Result<u64, SagaError>, Map<AbsKey, RecordV>) {
    let ls = pre.live(now);
    match counter_val(ls) {
        None => (Err(SagaError::CorruptRecord), pre.raw()),
        Some(c) => if c >= u64::MAX {
            (Err(SagaError::CorruptRecord), pre.raw())
        } else {
            let nid = (c + 1) as nat;
            let idv = (user, dec_of(nid));
            let braw = bumped_raw(pre, now, nid);
            if ls.contains_key(shadow_key(idv)) || ls.contains_key(order_key(idv)) {
                (Err(SagaError::TransactionConflict), braw)
            } else {
                (
                    Ok((c + 1) as u64),
                    braw.insert(
                        shadow_key(idv),
                        RecordV {
                            fields: order_fields(Status::Created, goods),
                            expires_at: Some((now + ttl) as u64),
                        },
                    ),
                )
            }
        },
    }
}

/// A validated create request: the goods the new order asks for.
pub struct CreateOrder {
    pub goods: Vec<GoodReq>,
}

impl CreateOrder {
    /// Assigns the next order number and writes the new order as a shadow
    /// with status `created`, guarded against a number already in use; the
    /// shadow carries the usual deadline and becomes the live order only
    /// when the warehouse's outcome commits it.
    pub fn create(&self, user_id: &String, store: &mut RecordStore, now: u64, ttl: u64) -> (r:
        Result<u64, SagaError>)
        requires
            old(store).wf(),
            distinct_req_ids(self.goods@),
            1 <= ttl,
            now + ttl <= u64::MAX,
        ensures
            final(store).wf(),
            r == fst(create_outcome(*old(store), user_id@, self.goods@, now, ttl)),
            final(store).raw() == snd(create_outcome(*old(store), user_id@, self.goods@, now, ttl)),
    {
        let ghost pre = *old(store);
        let counter = Key::Counter;
        let cfield = counter_field_name();
        let cur: u64 = if store.exists_key(&counter, now) {
            match store.hget(&counter, &cfield, now) {
                None => {
                    return Err(SagaError::CorruptRecord);
                },
                Some(text) => match parse_u64(text.as_str()) {
                    None => {
                        return Err(SagaError::CorruptRecord);
                    },
                    Some(c) => c,
                },
            }
        } else {
            0
        };
        if cur == u64::MAX {
            return Err(SagaError::CorruptRecord);
        }
        let nid = cur + 1;
        let nid_text = u64_to_dec(nid);
        store.hset(&counter, &cfield, &nid_text, now);
        proof {
            assert(store.raw() == bumped_raw(pre, now, nid as nat));
        }
        let id = OrderId::new(user_id.clone(), nid_text);
        let sk = Key::Shadow(id.duplicate());
        let ok = Key::Order(id.duplicate());
        if store.exists_key(&sk, now) || store.exists_key(&ok, now) {
            proof {
                assert(store.live(now).contains_key(sk@) == pre.live(now).contains_key(sk@));
                assert(store.live(now).contains_key(ok@) == pre.live(now).contains_key(ok@));
            }
            return Err(SagaError::TransactionConflict);
        }
        proof {
            assert(store.live(now).contains_key(sk@) == pre.live(now).contains_key(sk@));
            assert(store.live(now).contains_key(ok@) == pre.live(now).contains_key(ok@));
        }
        let ghost braw = store.raw();
        let sfield = status_field_name();
        let screated = status_text(Status::Created);
        store.hset(&sk, &sfield, &screated, now);
        proof {
            assert(store.raw() == braw.insert(
                sk@,
                RecordV { fields: order_fields(Status::Created, Seq::empty()), expires_at: None },
            )) by {
                assert(order_fields(Status::Created, Seq::<GoodReq>::empty())
                    == Map::<Seq<char>, Seq<char>>::empty().insert(
                    status_field(),
                    status_name(Status::Created),
                ));
            }
            assert(self.goods@.take(0) =~= Seq::<GoodReq>::empty());
        }
        let n = self.goods.len();
        let mut i: usize = 0;
        while i < n
            invariant
                store.wf(),
                n == self.goods@.len(),
                distinct_req_ids(self.goods@),
                0 <= i <= n,
                sfield@ == status_field(),
                sk@ == shadow_key((user_id@, dec_of(nid as nat))),
                store.raw() == braw.insert(
                    sk@,
                    RecordV {
                        fields: order_fields(Status::Created, self.goods@.take(i as int)),
                        expires_at: None,
                    },
                ),
            decreases n - i,
        {
            let g = self.goods[i];
            let gf = good_field_name(g.id);
            let gv = u64_to_dec(g.count);
            let ghost mid = *store;
            store.hset(&sk, &gf, &gv, now);
            proof {
                assert(mid.live(now).contains_key(sk@));
                assert(self.goods@.take(i as int + 1).drop_last() =~= self.goods@.take(i as int));
                assert(self.goods@.take(i as int + 1).last() == self.goods@[i as int]);
                assert(store.raw() =~= braw.insert(
                    sk@,
                    RecordV {
                        fields: order_fields(Status::Created, self.goods@.take(i as int + 1)),
                        expires_at: None,
                    },
                ));
            }
            i = i + 1;
        }
        proof {
            assert(self.goods@.take(n as int) =~= self.goods@);
        }
        let ghost before_ttl = *store;
        store.expire(&sk, now + ttl, now);
        proof {
            assert(before_ttl.live(now).contains_key(sk@));
            assert(store.raw() =~= braw.insert(
                sk@,
                RecordV {
                    fields: order_fields(Status::Created, self.goods@),
                    expires_at: Some((now + ttl) as u64),
                },
            ));
        }
        Ok(nid)
    }
}

/// The count an order currently reserves for one good: zero when the good
/// is not on the order; `None` on a count that does not spell a number.
pub open spec fn order_count(fields: Map<Seq<char>, Seq<char>>, gid: u64) -> Option<int> {
    if fields.contains_key(good_field(gid)) {
        let v = fields[good_field(gid)];
        if v.len() > 0 && all_digits(v) && dec_val(v) <= u64::MAX {
            Some(dec_val(v))
        } else {
            None
        }
    } else {
        Some(0)
    }
}

/// The net stock deltas an update asks the warehouse to apply: for an
/// updated good, what the order held before minus what it asks for now;
/// for a dropped good, the whole count held before.
pub open spec fn upd_deltas(fields: Map<Seq<char>, Seq<char>>, goods: Seq<GoodUpd>) -> Result<
    Seq<GoodAdj>,
    SagaError,
>
    decreases goods.len(),
{
    if goods.len() == 0 {
        Ok(Seq::empty())
    } else {
        match order_count(fields, goods[0].id) {
            None => Err(SagaError::CorruptRecord),
            Some(oldc) => {
                let d = if goods[0].op is Delete {
                    oldc
                } else {
                    oldc - goods[0].count
                };
                if d < i64::MIN || d > i64::MAX {
                    Err(SagaError::CorruptRecord)
                } else {
                    match upd_deltas(fields, goods.skip(1)) {
                        Err(e) => Err(e),
                        Ok(rest) => Ok(
                            seq![GoodAdj { id: goods[0].id, delta: d as i64, op: goods[0].op }]
                                + rest,
                        ),
                    }
                }
            },
        }
    }
}

/// The shadow's fields after the update's per-good edits.
pub open spec fn apply_upds(fields: Map<Seq<char>, Seq<char>>, goods: Seq<GoodUpd>) -> Map<
    Seq<char>,
    Seq<char>,
>
    decreases goods.len(),
{
    if goods.len() == 0 {
        fields
    } else {
        let f = apply_upds(fields, goods.drop_last());
        match goods.last().op {
            GoodOp::Delete => f.remove(good_field(goods.last().id)),
            _ => f.insert(good_field(goods.last().id), dec_of(goods.last().count as nat)),
        }
    }
}

/// What an update decides and leaves behind. The gates run first — known
/// tags, a live order in state `created`, no mutation in flight — then the
/// deltas are computed against the live order; a failure there discards the
/// shadow again, success leaves the edited shadow under its deadline.
pub open spec fn update_outcome(
    pre: RecordStore,
    idv: (Seq<char>, Seq<char>),
    goods: Seq<GoodUpd>,
    now: u64,
    ttl: u64,
) -> (Result<Seq<GoodAdj>, SagaError>, Map<AbsKey, RecordV>) {
    let ls = pre.live(now);
    let okk = order_key(idv);
    let skk = shadow_key(idv);
    if exists|i: int| 0 <= i < goods.len() && (#[trigger] goods[i]).op is Add {
        (Err(SagaError::UnknownOperation), pre.raw())
    } else if !ls.contains_key(okk) {
        (Err(SagaError::OrderNotFound), pre.raw())
    } else if !ls[okk].contains_key(status_field()) {
        (Err(SagaError::CorruptRecord), pre.raw())
    } else if ls[okk][status_field()] == status_name(Status::Payed) {
        (Err(SagaError::AlreadyPayed), pre.raw())
    } else if ls[okk][status_field()] == status_name(Status::Deleted) {
        (Err(SagaError::OrderNotFound), pre.raw())
    } else if ls[okk][status_field()] != status_name(Status::Created) {
        (Err(SagaError::CorruptRecord), pre.raw())
    } else if ls.contains_key(skk) {
        (Err(SagaError::TransactionConflict), pre.raw())
    } else {
        match upd_deltas(ls[okk], goods) {
            Err(e) => (Err(e), pre.raw().remove(skk)),
            Ok(ds) => (
                Ok(ds),
                pre.raw().insert(
                    skk,
                    RecordV {
                        fields: apply_upds(ls[okk], goods),
                        expires_at: Some((now + ttl) as u64),
                    },
                ),
            ),
        }
    }
}

/// A validated update request: the new counts and per-good tags.
pub struct UpdateOrder {
    pub goods: Vec<GoodUpd>,
}

impl UpdateOrder {
    /// Begins a shadow for the order, applies the update's field edits to
    /// the shadow only, and hands back the net stock deltas for the
    /// warehouse; the live order stays untouched until the outcome message
    /// commits or rolls back the shadow.
    pub fn update(&self, id: &OrderId, store: &mut RecordStore, now: u64, ttl: u64) -> (r:
        Result<Vec<GoodAdj>, SagaError>)
        requires
            old(store).wf(),
            forall|i: int, j: int|
                0 <= i < j < self.goods@.len() ==> (#[trigger] self.goods@[i]).id != (
                #[trigger] self.goods@[j]).id,
            1 <= ttl,
            now + ttl <= u64::MAX,
        ensures
            final(store).wf(),
            r is Ok <==> fst(update_outcome(*old(store), id@, self.goods@, now, ttl)) is Ok,
            r is Ok ==> r->Ok_0@ == fst(update_outcome(*old(store), id@, self.goods@, now, ttl))->Ok_0,
            r is Err ==> r->Err_0 == fst(
                update_outcome(*old(store), id@, self.goods@, now, ttl),
            )->Err_0,
            final(store).raw() == snd(update_outcome(*old(store), id@, self.goods@, now, ttl)),
    {
        let ghost pre = *old(store);
        let ghost ls = pre.live(now);
        let n = self.goods.len();
        let mut i: usize = 0;
        while i < n
            invariant
                n == self.goods@.len(),
                0 <= i <= n,
                pre == *old(store),
                *store == pre,
                pre.wf(),
                forall|t: int| 0 <= t < i ==> !((#[trigger] self.goods@[t]).op is Add),
            decreases n - i,
        {
            match self.goods[i].op {
                GoodOp::Add => {
                    return Err(SagaError::UnknownOperation);
                },
                _ => {},
            }
            i = i + 1;
        }
        let ok_key = Key::Order(id.duplicate());
        let sk = Key::Shadow(id.duplicate());
        let sfield = status_field_name();
        if !store.exists_key(&ok_key, now) {
            return Err(SagaError::OrderNotFound);
        }
        let status = match store.hget(&ok_key, &sfield, now) {
            None => {
                return Err(SagaError::CorruptRecord);
            },
            Some(text) => text,
        };
        if status == status_text(Status::Payed) {
            return Err(SagaError::AlreadyPayed);
        }
        if status == status_text(Status::Deleted) {
            return Err(SagaError::OrderNotFound);
        }
        if !(status == status_text(Status::Created)) {
            return Err(SagaError::CorruptRecord);
        }
        match begin(store, id, now, ttl) {
            Err(e) => {
                proof {
                    assert(ls.contains_key(order_key(id@)));
                    assert(e == SagaError::TransactionConflict);
                }
                return Err(e);
            },
            Ok(()) => {},
        }
        proof {
            assert(!ls.contains_key(shadow_key(id@)));
            assert(store.raw() == pre.raw().insert(
                shadow_key(id@),
                RecordV { fields: ls[order_key(id@)], expires_at: Some((now + ttl) as u64) },
            ));
            assert(pre.raw().insert(
                shadow_key(id@),
                RecordV { fields: ls[order_key(id@)], expires_at: Some((now + ttl) as u64) },
            ).remove(shadow_key(id@)) =~= pre.raw().remove(shadow_key(id@)));
        }
        // compute the net deltas against the live order
        let ghost fields0 = ls[order_key(id@)];
        proof {
            assert(fields0.contains_key(status_field()));
            assert(fields0[status_field()] == status_name(Status::Created));
        }
        let mut deltas: Vec<GoodAdj> = Vec::new();
        let mut i: usize = 0;
        proof {
            assert(self.goods@.skip(0) =~= self.goods@);
        }
        while i < n
            invariant
                store.wf(),
                n == self.goods@.len(),
                0 <= i <= n,
                pre == *old(store),
                id@ == (id.user_id@, id.order_id@),
                ok_key@ == order_key(id@) && sk@ == shadow_key(id@),
                ls == pre.live(now),
                ls.contains_key(order_key(id@)),
                !ls.contains_key(shadow_key(id@)),
                fields0 == ls[order_key(id@)],
                fields0.contains_key(status_field()),
                fields0[status_field()] == status_name(Status::Created),
                fields0[status_field()] != status_name(Status::Payed),
                fields0[status_field()] != status_name(Status::Deleted),
                forall|t: int| 0 <= t < n ==> !((#[trigger] self.goods@[t]).op is Add),
                store.raw() == pre.raw().insert(
                    shadow_key(id@),
                    RecordV { fields: fields0, expires_at: Some((now + ttl) as u64) },
                ),
                store.live(now).contains_key(order_key(id@)),
                store.live(now)[order_key(id@)] == fields0,
                upd_deltas(fields0, self.goods@) == match upd_deltas(
                    fields0,
                    self.goods@.skip(i as int),
                ) {
                    Err(e) => Err::<Seq<GoodAdj>, SagaError>(e),
                    Ok(rest) => Ok(deltas@ + rest),
                },
            decreases n - i,
        {
            let g = self.goods[i];
            proof {
                assert(self.goods@.skip(i as int)[0] == self.goods@[i as int]);
                assert(self.goods@.skip(i as int).skip(1) =~= self.goods@.skip(i as int + 1));
            }
            let gf = good_field_name(g.id);
            let oldc: u64 = match store.hget(&ok_key, &gf, now) {
                None => 0,
                Some(text) => match parse_u64(text.as_str()) {
                    None => {
                        rollback(store, id);
                        proof {
                            assert(store.raw() =~= pre.raw().remove(shadow_key(id@)));
                        }
                        return Err(SagaError::CorruptRecord);
                    },
                    Some(c) => c,
                },
            };
            let d: i128 = match g.op {
                GoodOp::Delete => oldc as i128,
                _ => oldc as i128 - g.count as i128,
            };
            if d < i64::MIN as i128 || d > i64::MAX as i128 {
                rollback(store, id);
                proof {
                    assert(store.raw() =~= pre.raw().remove(shadow_key(id@)));
                }
                return Err(SagaError::CorruptRecord);
            }
            let adj = GoodAdj { id: g.id, delta: d as i64, op: g.op };
            proof {
                if upd_deltas(fields0, self.goods@.skip(i as int + 1)) is Ok {
                    let rest = upd_deltas(fields0, self.goods@.skip(i as int + 1))->Ok_0;
                    assert(deltas@ + (seq![adj] + rest) =~= deltas@.push(adj) + rest);
                }
            }
            deltas.push(adj);
            i = i + 1;
        }
        proof {
            assert(self.goods@.skip(n as int) =~= Seq::<GoodUpd>::empty());
            assert(upd_deltas(fields0, self.goods@) == Ok::<Seq<GoodAdj>, SagaError>(
                deltas@ + Seq::empty(),
            ));
            assert(deltas@ + Seq::<GoodAdj>::empty() =~= deltas@);
        }
        // apply the edits to the shadow only
        let mut j: usize = 0;
        proof {
            assert(self.goods@.take(0) =~= Seq::<GoodUpd>::empty());
        }
        while j < n
            invariant
                store.wf(),
                n == self.goods@.len(),
                0 <= j <= n,
                pre == *old(store),
                1 <= ttl && now + ttl <= u64::MAX,
                id@ == (id.user_id@, id.order_id@),
                sk@ == shadow_key(id@),
                ls == pre.live(now),
                ls.contains_key(order_key(id@)),
                !ls.contains_key(shadow_key(id@)),
                fields0 == ls[order_key(id@)],
                fields0.contains_key(status_field()),
                fields0[status_field()] == status_name(Status::Created),
                fields0[status_field()] != status_name(Status::Payed),
                fields0[status_field()] != status_name(Status::Deleted),
                forall|t: int| 0 <= t < n ==> !((#[trigger] self.goods@[t]).op is Add),
                upd_deltas(fields0, self.goods@) is Ok,
                deltas@ == upd_deltas(fields0, self.goods@)->Ok_0,
                store.raw() == pre.raw().insert(
                    shadow_key(id@),
                    RecordV {
                        fields: apply_upds(fields0, self.goods@.take(j as int)),
                        expires_at: Some((now + ttl) as u64),
                    },
                ),
                apply_upds(fields0, self.goods@.take(j as int)).contains_key(status_field()),
            decreases n - j,
        {
            let g = self.goods[j];
            let gf = good_field_name(g.id);
            let ghost cur = apply_upds(fields0, self.goods@.take(j as int));
            let ghost mid = *store;
            proof {
                assert(self.goods@.take(j as int + 1).drop_last() =~= self.goods@.take(j as int));
                assert(self.goods@.take(j as int + 1).last() == self.goods@[j as int]);
                assert(mid.live(now).contains_key(sk@));
                assert(mid.live(now)[sk@] == cur);
                lemma_good_field_not_status(g.id);
            }
            match g.op {
                GoodOp::Delete => {
                    store.hdel(&sk, &gf, now);
                    proof {
                        if cur.contains_key(good_field(g.id)) {
                            assert(cur.remove(good_field(g.id)).contains_key(status_field()));
                            assert(cur.remove(good_field(g.id))
                                != Map::<Seq<char>, Seq<char>>::empty()) by {
                                assert(!Map::<Seq<char>, Seq<char>>::empty().contains_key(
                                    status_field(),
                                ));
                            }
                            assert(store.raw() =~= pre.raw().insert(
                                shadow_key(id@),
                                RecordV {
                                    fields: apply_upds(fields0, self.goods@.take(j as int + 1)),
                                    expires_at: Some((now + ttl) as u64),
                                },
                            ));
                        } else {
                            assert(cur.remove(good_field(g.id)) =~= cur);
                            assert(store.raw() =~= pre.raw().insert(
                                shadow_key(id@),
                                RecordV {
                                    fields: apply_upds(fields0, self.goods@.take(j as int + 1)),
                                    expires_at: Some((now + ttl) as u64),
                                },
                            ));
                        }
                    }
                },
                _ => {
                    let gv = u64_to_dec(g.count);
                    store.hset(&sk, &gf, &gv, now);
                    proof {
                        assert(store.raw() =~= pre.raw().insert(
                            shadow_key(id@),
                            RecordV {
                                fields: apply_upds(fields0, self.goods@.take(j as int + 1)),
                                expires_at: Some((now + ttl) as u64),
                            },
                        ));
                    }
                },
            }
            j = j + 1;
        }
        proof {
            assert(self.goods@.take(n as int) =~= self.goods@);
        }
        Ok(deltas)
    }
}

/// Begins the delete saga for an order: copies the live order to a shadow,
/// marks the shadow deleted, and hands back the order's goods so the
/// warehouse can credit them back. The live order stays as it is until the
/// outcome message commits the shadow.
pub fn delete_order(store: &mut RecordStore, id: &OrderId, now: u64, ttl: u64) -> (r: Result<
    Vec<GoodReq>,
    SagaError,
>)
    requires
        old(store).wf(),
        1 <= ttl,
        now + ttl <= u64::MAX,
    ensures
        final(store).wf(),
        ({
            let ls = old(store).live(now);
            let okk = order_key(id@);
            let skk = shadow_key(id@);
            if !ls.contains_key(okk) {
                r == Err::<Vec<GoodReq>, SagaError>(SagaError::OrderNotFound) && final(store).raw() == old(store).raw()
            } else if !crate::records::order_fields_ok(ls[okk]) {
                r == Err::<Vec<GoodReq>, SagaError>(SagaError::CorruptRecord) && final(store).raw() == old(store).raw()
            } else if ls[okk][status_field()] == status_name(Status::Deleted) {
                r == Err::<Vec<GoodReq>, SagaError>(SagaError::OrderNotFound) && final(store).raw() == old(store).raw()
            } else if ls.contains_key(skk) {
                r == Err::<Vec<GoodReq>, SagaError>(SagaError::TransactionConflict) && final(store).raw() == old(store).raw()
            } else {
                &&& r is Ok
                &&& crate::records::order_matches_map(
                    crate::records::status_of_name(ls[okk][status_field()])->0,
                    r->Ok_0@,
                    ls[okk],
                )
                &&& final(store).raw() == old(store).raw().insert(
                    skk,
                    RecordV {
                        fields: ls[okk].insert(status_field(), status_name(Status::Deleted)),
                        expires_at: Some((now + ttl) as u64),
                    },
                )
            }
        }),
{
    let ghost pre = *old(store);
    let ghost ls = pre.live(now);
    let ok_key = Key::Order(id.duplicate());
    let sk = Key::Shadow(id.duplicate());
    let pairs = match store.hgetall(&ok_key, now) {
        None => {
            return Err(SagaError::OrderNotFound);
        },
        Some(p) => p,
    };
    let order = match crate::records::order_from_fields(&pairs) {
        None => {
            proof {
                crate::records::lemma_parseable_bridge(crate::store::abs_fields(pairs@));
            }
            return Err(SagaError::CorruptRecord);
        },
        Some(o) => o,
    };
    proof {
        crate::records::lemma_status_names();
        crate::records::lemma_parseable_bridge(crate::store::abs_fields(pairs@));
        crate::records::lemma_matches_bridge(
            order.status,
            order.goods@,
            crate::store::abs_fields(pairs@),
        );
        assert(ls[order_key(id@)][status_field()] == status_name(order.status));
        assert(crate::records::status_of_name(status_name(order.status)) == Some(order.status));
    }
    let is_deleted = match order.status {
        Status::Deleted => true,
        _ => false,
    };
    if is_deleted {
        return Err(SagaError::OrderNotFound);
    }
    match begin(store, id, now, ttl) {
        Err(e) => {
            proof {
                assert(ls.contains_key(order_key(id@)));
                assert(e == SagaError::TransactionConflict);
            }
            return Err(e);
        },
        Ok(()) => {},
    }
    let sfield = status_field_name();
    let sdeleted = status_text(Status::Deleted);
    let ghost mid = *store;
    store.hset(&sk, &sfield, &sdeleted, now);
    proof {
        assert(mid.live(now).contains_key(sk@));
        assert(mid.live(now)[sk@] == ls[order_key(id@)]);
        assert(store.raw() =~= pre.raw().insert(
            shadow_key(id@),
            RecordV {
                fields: ls[order_key(id@)].insert(status_field(), status_name(Status::Deleted)),
                expires_at: Some((now + ttl) as u64),
            },
        ));
        crate::records::lemma_status_names();
        assert(ls[order_key(id@)][status_field()] != status_name(Status::Deleted));
        assert(crate::records::status_of_name(ls[order_key(id@)][status_field()])
            == Some(order.status));
    }
    Ok(order.goods)
}

/// What the billing step decides and leaves behind: it advances a settled
/// order from `created` to `payed`, exactly once, and refuses while a
/// mutation is still in flight.
pub open spec fn billing_outcome(pre: RecordStore, idv: (Seq<char>, Seq<char>), now: u64) -> (
    Result<(), SagaError>,
    Map<AbsKey, RecordV>,
) {
    let ls = pre.live(now);
    let okk = order_key(idv);
    let skk = shadow_key(idv);
    if !ls.contains_key(okk) {
        (Err(SagaError::OrderNotFound), pre.raw())
    } else if ls.contains_key(skk) {
        (Err(SagaError::TransactionConflict), pre.raw())
    } else if !ls[okk].contains_key(status_field()) {
        (Err(SagaError::CorruptRecord), pre.raw())
    } else if ls[okk][status_field()] == status_name(Status::Payed) {
        (Err(SagaError::AlreadyPayed), pre.raw())
    } else if ls[okk][status_field()] == status_name(Status::Deleted) {
        (Err(SagaError::OrderNotFound), pre.raw())
    } else if ls[okk][status_field()] != status_name(Status::Created) {
        (Err(SagaError::CorruptRecord), pre.raw())
    } else {
        (
            Ok(()),
            pre.raw().insert(
                okk,
                RecordV {
                    fields: ls[okk].insert(status_field(), status_name(Status::Payed)),
                    expires_at: pre.raw()[okk].expires_at,
                },
            ),
        )
    }
}

/// Advances a settled order to `payed`: refused while a shadow is in
/// flight, and an order is billed at most once.
pub fn make_billing(store: &mut RecordStore, id: &OrderId, now: u64) -> (r: Result<
    (),
    SagaError,
>)
    requires
        old(store).wf(),
    ensures
        final(store).wf(),
        r == fst(billing_outcome(*old(store), id@, now)),
        final(store).raw() == snd(billing_outcome(*old(store), id@, now)),
{
    let ok_key = Key::Order(id.duplicate());
    let sk = Key::Shadow(id.duplicate());
    if !store.exists_key(&ok_key, now) {
        return Err(SagaError::OrderNotFound);
    }
    if store.exists_key(&sk, now) {
        return Err(SagaError::TransactionConflict);
    }
    let sfield = status_field_name();
    let status = match store.hget(&ok_key, &sfield, now) {
        None => {
            return Err(SagaError::CorruptRecord);
        },
        Some(text) => text,
    };
    if status == status_text(Status::Payed) {
        return Err(SagaError::AlreadyPayed);
    }
    if status == status_text(Status::Deleted) {
        return Err(SagaError::OrderNotFound);
    }
    if !(status == status_text(Status::Created)) {
        return Err(SagaError::CorruptRecord);
    }
    let spayed = status_text(Status::Payed);
    store.hset(&ok_key, &sfield, &spayed, now);
    Ok(())
}

/// Discards the shadow of an order on a rollback outcome; redelivery is a
/// no-op.
pub fn rollout_tx(store: &mut RecordStore, id: &OrderId)
    requires
        old(store).wf(),
    ensures
        final(store).wf(),
        final(store).raw() == old(store).raw().remove(shadow_key(id@)),
{
    rollback(store, id);
}

/// Concludes an order's saga on a commit outcome: promotes the shadow to
/// the live key — or deletes the live order outright when asked to — and
/// always discards the shadow.
pub fn commit_tx(store: &mut RecordStore, id: &OrderId, delete_instead: bool, now: u64)
    requires
        old(store).wf(),
    ensures
        final(store).wf(),
        delete_instead ==> final(store).raw() == old(store).raw().remove(order_key(id@)).remove(
            shadow_key(id@),
        ),
        !delete_instead && old(store).live(now).contains_key(shadow_key(id@)) ==> final(store).raw() == old(store).raw().insert(
            order_key(id@),
            RecordV { fields: old(store).live(now)[shadow_key(id@)], expires_at: None },
        ).remove(shadow_key(id@)),
        !delete_instead && !old(store).live(now).contains_key(shadow_key(id@)) ==> final(store).raw() == old(store).raw().remove(shadow_key(id@)),
        !delete_instead && old(store).live(now).contains_key(shadow_key(id@)) ==> {
            &&& !final(store).live(now).contains_key(shadow_key(id@))
            &&& final(store).live(now).contains_key(order_key(id@))
            &&& final(store).live(now)[order_key(id@)] == old(store).live(now)[shadow_key(id@)]
        },
{
    commit(store, id, delete_instead, now);
}

/// Reads one order back for the read-only query path; a deleted order, or
/// one the store does not hold, reads as absent.
pub fn get_order(store: &RecordStore, id: &OrderId, now: u64) -> (r: Option<
    crate::records::Order,
>)
    requires
        store.wf(),
    ensures
        ({
            let ls = store.live(now);
            let okk = order_key(id@);
            &&& (r is Some <==> ls.contains_key(okk) && crate::records::order_fields_ok(ls[okk])
                && ls[okk][status_field()] != status_name(Status::Deleted))
            &&& r is Some ==> {
                &&& crate::records::order_matches_map(r->0.status, r->0.goods@, ls[okk])
                &&& r->0.status != Status::Deleted
            }
        }),
{
    let ok_key = Key::Order(id.duplicate());
    let pairs = match store.hgetall(&ok_key, now) {
        None => {
            return None;
        },
        Some(p) => p,
    };
    let order = match crate::records::order_from_fields(&pairs) {
        None => {
            proof {
                crate::records::lemma_parseable_bridge(crate::store::abs_fields(pairs@));
            }
            return None;
        },
        Some(o) => o,
    };
    proof {
        crate::records::lemma_status_names();
        crate::records::lemma_parseable_bridge(crate::store::abs_fields(pairs@));
        crate::records::lemma_matches_bridge(
            order.status,
            order.goods@,
            crate::store::abs_fields(pairs@),
        );
    }
    match order.status {
        Status::Deleted => None,
        _ => Some(order),
    }
}

/// The message router of the orders participant.
pub struct OrdersContext;

impl OrdersContext {
    /// Dispatches one inbound message: validates its body against the
    /// schema of its operation before any record is touched, applies the
    /// local step, and produces the forward message for the warehouse —
    /// none for the terminal commit, rollback and billing steps.
    pub fn handle(&self, store: &mut RecordStore, env: &Envelope, now: u64) -> (r: Result<
        Option<OutMessage>,
        SagaError,
    >)
        requires
            old(store).wf(),
            now + crate::shadow::SHADOW_TTL_SECS <= u64::MAX,
        ensures
            final(store).wf(),
            ({
                let ttl = crate::shadow::SHADOW_TTL_SECS;
                match env.operation {
                    Operation::Create => {
                        match crate::payload::create_goods(env.payload@) {
                            None => r == Err::<Option<OutMessage>, SagaError>(
                                SagaError::Validation,
                            ) && final(store).raw() == old(store).raw(),
                            Some(gs) => {
                                let oc = create_outcome(*old(store), env.user_id@, gs, now, ttl);
                                &&& final(store).raw() == snd(oc)
                                &&& (r is Err <==> fst(oc) is Err)
                                &&& r is Err ==> r->Err_0 == fst(oc)->Err_0
                                &&& r is Ok ==> {
                                    let m = r->Ok_0->0;
                                    &&& r->Ok_0 is Some
                                    &&& m.topic == Topic::Warehouse
                                    &&& m.operation == Operation::Create
                                    &&& m.user_id@ == env.user_id@
                                    &&& m.order_id@ == dec_of(fst(oc)->Ok_0 as nat)
                                    &&& m.payload is Some
                                    &&& m.payload->0@ == crate::payload::goods_payload_text(gs)
                                }
                            },
                        }
                    },
                    Operation::Update => {
                        if env.order_id is None {
                            r == Err::<Option<OutMessage>, SagaError>(
                                SagaError::MissingCorrelationKey,
                            ) && final(store).raw() == old(store).raw()
                        } else {
                            match crate::payload::update_goods(env.payload@) {
                                None => r == Err::<Option<OutMessage>, SagaError>(
                                    SagaError::Validation,
                                ) && final(store).raw() == old(store).raw(),
                                Some(gs) => {
                                    let idv = (env.user_id@, env.order_id->0@);
                                    let oc = update_outcome(*old(store), idv, gs, now, ttl);
                                    &&& final(store).raw() == snd(oc)
                                    &&& (r is Err <==> fst(oc) is Err)
                                    &&& r is Err ==> r->Err_0 == fst(oc)->Err_0
                                    &&& r is Ok ==> {
                                        let m = r->Ok_0->0;
                                        &&& r->Ok_0 is Some
                                        &&& m.topic == Topic::Warehouse
                                        &&& m.operation == Operation::Update
                                        &&& m.user_id@ == env.user_id@
                                        &&& m.order_id@ == env.order_id->0@
                                        &&& m.payload is Some
                                        &&& m.payload->0@ == crate::payload::adjust_payload_text(
                                            fst(oc)->Ok_0,
                                        )
                                    }
                                },
                            }
                        }
                    },
                    Operation::Delete => {
                        if env.order_id is None {
                            r == Err::<Option<OutMessage>, SagaError>(
                                SagaError::MissingCorrelationKey,
                            ) && final(store).raw() == old(store).raw()
                        } else {
                            let idv = (env.user_id@, env.order_id->0@);
                            let ls = old(store).live(now);
                            let okk = order_key(idv);
                            let skk = shadow_key(idv);
                            if !ls.contains_key(okk) {
                                r == Err::<Option<OutMessage>, SagaError>(
                                    SagaError::OrderNotFound,
                                ) && final(store).raw() == old(store).raw()
                            } else if !crate::records::order_fields_ok(ls[okk]) {
                                r == Err::<Option<OutMessage>, SagaError>(
                                    SagaError::CorruptRecord,
                                ) && final(store).raw() == old(store).raw()
                            } else if ls[okk][status_field()] == status_name(Status::Deleted) {
                                r == Err::<Option<OutMessage>, SagaError>(
                                    SagaError::OrderNotFound,
                                ) && final(store).raw() == old(store).raw()
                            } else if ls.contains_key(skk) {
                                r == Err::<Option<OutMessage>, SagaError>(
                                    SagaError::TransactionConflict,
                                ) && final(store).raw() == old(store).raw()
                            } else {
                                &&& r is Ok
                                &&& final(store).raw() == old(store).raw().insert(
                                    skk,
                                    RecordV {
                                        fields: ls[okk].insert(
                                            status_field(),
                                            status_name(Status::Deleted),
                                        ),
                                        expires_at: Some((now + ttl) as u64),
                                    },
                                )
                                &&& {
                                    let m = r->Ok_0->0;
                                    &&& r->Ok_0 is Some
                                    &&& m.topic == Topic::Warehouse
                                    &&& m.operation == Operation::Delete
                                    &&& m.user_id@ == env.user_id@
                                    &&& m.order_id@ == env.order_id->0@
                                    &&& m.payload is Some
                                    &&& exists|gs: Seq<GoodReq>|
                                        crate::records::order_matches_map(
                                            crate::records::status_of_name(
                                                ls[okk][status_field()],
                                            )->0,
                                            gs,
                                            ls[okk],
                                        ) && m.payload->0@ == crate::payload::goods_payload_text(
                                            gs,
                                        )
                                }
                            }
                        }
                    },
                    Operation::Commit => {
                        if env.order_id is None {
                            r == Err::<Option<OutMessage>, SagaError>(
                                SagaError::MissingCorrelationKey,
                            ) && final(store).raw() == old(store).raw()
                        } else {
                            let idv = (env.user_id@, env.order_id->0@);
                            &&& r == Ok::<Option<OutMessage>, SagaError>(None)
                            &&& (old(store).live(now).contains_key(shadow_key(idv)) ==> final(store).raw() == old(store).raw().insert(
                                order_key(idv),
                                RecordV {
                                    fields: old(store).live(now)[shadow_key(idv)],
                                    expires_at: None,
                                },
                            ).remove(shadow_key(idv)))
                            &&& (!old(store).live(now).contains_key(shadow_key(idv)) ==> final(store).raw() == old(store).raw().remove(shadow_key(idv)))
                        }
                    },
                    Operation::Rollback => {
                        if env.order_id is None {
                            r == Err::<Option<OutMessage>, SagaError>(
                                SagaError::MissingCorrelationKey,
                            ) && final(store).raw() == old(store).raw()
                        } else {
                            let idv = (env.user_id@, env.order_id->0@);
                            &&& r == Ok::<Option<OutMessage>, SagaError>(None)
                            &&& final(store).raw() == old(store).raw().remove(shadow_key(idv))
                        }
                    },
                    Operation::MakeBilling => {
                        if env.order_id is None {
                            r == Err::<Option<OutMessage>, SagaError>(
                                SagaError::MissingCorrelationKey,
                            ) && final(store).raw() == old(store).raw()
                        } else {
                            let idv = (env.user_id@, env.order_id->0@);
                            let oc = billing_outcome(*old(store), idv, now);
                            &&& final(store).raw() == snd(oc)
                            &&& (r is Err <==> fst(oc) is Err)
                            &&& r is Err ==> r->Err_0 == fst(oc)->Err_0
                            &&& r is Ok ==> r->Ok_0 is None
                        }
                    },
                }
            }),
    {
        let ttl = crate::shadow::SHADOW_TTL_SECS;
        match env.operation {
            Operation::Create => {
                let goods = match crate::payload::parse_create_payload(env.payload.as_str()) {
                    None => {
                        return Err(SagaError::Validation);
                    },
                    Some(gs) => gs,
                };
                let req = CreateOrder { goods };
                let nid = match req.create(&env.user_id, store, now, ttl) {
                    Err(e) => {
                        return Err(e);
                    },
                    Ok(nid) => nid,
                };
                let body = crate::payload::render_goods_payload(&req.goods);
                Ok(
                    Some(
                        OutMessage {
                            topic: Topic::Warehouse,
                            key: None,
                            operation: Operation::Create,
                            user_id: env.user_id.clone(),
                            order_id: u64_to_dec(nid),
                            payload: Some(body),
                        },
                    ),
                )
            },
            Operation::Update => {
                let oid = match &env.order_id {
                    None => {
                        return Err(SagaError::MissingCorrelationKey);
                    },
                    Some(o) => o,
                };
                let goods = match crate::payload::parse_update_payload(env.payload.as_str()) {
                    None => {
                        return Err(SagaError::Validation);
                    },
                    Some(gs) => gs,
                };
                let id = OrderId::new(env.user_id.clone(), oid.clone());
                let upd = UpdateOrder { goods };
                let deltas = match upd.update(&id, store, now, ttl) {
                    Err(e) => {
                        return Err(e);
                    },
                    Ok(ds) => ds,
                };
                let body = crate::payload::render_adjust_payload(&deltas);
                Ok(
                    Some(
                        OutMessage {
                            topic: Topic::Warehouse,
                            key: None,
                            operation: Operation::Update,
                            user_id: env.user_id.clone(),
                            order_id: oid.clone(),
                            payload: Some(body),
                        },
                    ),
                )
            },
            Operation::Delete => {
                let oid = match &env.order_id {
                    None => {
                        return Err(SagaError::MissingCorrelationKey);
                    },
                    Some(o) => o,
                };
                let id = OrderId::new(env.user_id.clone(), oid.clone());
                let goods = match delete_order(store, &id, now, ttl) {
                    Err(e) => {
                        return Err(e);
                    },
                    Ok(gs) => gs,
                };
                let body = crate::payload::render_goods_payload(&goods);
                Ok(
                    Some(
                        OutMessage {
                            topic: Topic::Warehouse,
                            key: None,
                            operation: Operation::Delete,
                            user_id: env.user_id.clone(),
                            order_id: oid.clone(),
                            payload: Some(body),
                        },
                    ),
                )
            },
            Operation::Commit => {
                let oid = match &env.order_id {
                    None => {
                        return Err(SagaError::MissingCorrelationKey);
                    },
                    Some(o) => o,
                };
                let id = OrderId::new(env.user_id.clone(), oid.clone());
                commit_tx(store, &id, false, now);
                Ok(None)
            },
            Operation::Rollback => {
                let oid = match &env.order_id {
                    None => {
                        return Err(SagaError::MissingCorrelationKey);
                    },
                    Some(o) => o,
                };
                let id = OrderId::new(env.user_id.clone(), oid.clone());
                rollout_tx(store, &id);
                Ok(None)
            },
            Operation::MakeBilling => {
                let oid = match &env.order_id {
                    None => {
                        return Err(SagaError::MissingCorrelationKey);
                    },
                    Some(o) => o,
                };
                let id = OrderId::new(env.user_id.clone(), oid.clone());
                match make_billing(store, &id, now) {
                    Err(e) => Err(e),
                    Ok(()) => Ok(None),
                }
            },
        }
    }
}

} // verus!
