//! Inventory reservation engine.
//!
//! Stock lives in one record per good, whose `count` field spells the items
//! on hand. A reservation reads and checks every requested good before it
//! writes any debit, so a refused reservation changes no count at all;
//! a release credits counts back unconditionally, and an adjustment applies
//! the net delta an update saga computed.

use vstd::prelude::*;
use crate::errors::SagaError;
use crate::num::{all_digits, dec_of, dec_val, parse_u64, u64_to_dec};
use crate::records::{count_field, count_field_name};
use crate::store::{AbsKey, Key, RecordStore};

verus! {

/// Per-good operation tag of an update payload.
#[derive(Clone, Copy, PartialEq, Eq, Structural, Debug)]
pub enum GoodOp {
    Add,
    Update,
    Delete,
}

/// One requested good of a create payload, or one credit of a release.
#[derive(Clone, Copy, PartialEq, Eq, Structural, Debug)]
pub struct GoodReq {
    pub id: u64,
    pub count: u64,
}

/// One item of an update payload: the newly requested count and the tag.
#[derive(Clone, Copy, PartialEq, Eq, Structural, Debug)]
pub struct GoodUpd {
    pub id: u64,
    pub count: u64,
    pub op: GoodOp,
}

/// One net stock adjustment of an update saga.
#[derive(Clone, Copy, PartialEq, Eq, Structural, Debug)]
pub struct GoodAdj {
    pub id: u64,
    pub delta: i64,
    pub op: GoodOp,
}

/// The ids of a goods list are pairwise distinct; the data model keeps goods
/// as a map keyed by good id, so a valid payload never repeats one.
pub open spec fn distinct_req_ids(goods: Seq<GoodReq>) -> bool {
    forall|i: int, j: int| 0 <= i < j < goods.len() ==> (#[trigger] goods[i]).id != (
    #[trigger] goods[j]).id
}

pub open spec fn distinct_adj_ids(goods: Seq<GoodAdj>) -> bool {
    forall|i: int, j: int| 0 <= i < j < goods.len() ==> (#[trigger] goods[i]).id != (
    #[trigger] goods[j]).id
}

/// A stock record for `id` shows a count at all.
pub open spec fn stock_present(live: Map<AbsKey, Map<Seq<char>, Seq<char>>>, id: u64) -> bool {
    live.contains_key(AbsKey::Good(id)) && live[AbsKey::Good(id)].contains_key(count_field())
}

/// The shown count spells a number within machine range.
pub open spec fn stock_numeric(live: Map<AbsKey, Map<Seq<char>, Seq<char>>>, id: u64) -> bool {
    let v = live[AbsKey::Good(id)][count_field()];
    stock_present(live, id) && v.len() > 0 && all_digits(v) && dec_val(v) <= u64::MAX
}

/// The count on hand for `id`.
pub open spec fn stock_val(live: Map<AbsKey, Map<Seq<char>, Seq<char>>>, id: u64) -> int {
    dec_val(live[AbsKey::Good(id)][count_field()])
}

/// What `reserve` decides: the first good in list order that is absent,
/// corrupt or short decides the error; otherwise the whole list is granted.
pub open spec fn reserve_outcome(
    live: Map<AbsKey, Map<Seq<char>, Seq<char>>>,
    goods: Seq<GoodReq>,
) -> Result<(), SagaError>
    decreases goods.len(),
{
    if goods.len() == 0 {
        Ok(())
    } else if !stock_present(live, goods[0].id) {
        Err(SagaError::GoodNotFound(goods[0].id))
    } else if !stock_numeric(live, goods[0].id) {
        Err(SagaError::CorruptRecord)
    } else if stock_val(live, goods[0].id) < goods[0].count {
        Err(SagaError::InsufficientStock(goods[0].id))
    } else {
        reserve_outcome(live, goods.skip(1))
    }
}

/// What `release` decides: crediting fails only on a corrupt count or on a
/// credit that would leave the machine range.
pub open spec fn release_outcome(
    live: Map<AbsKey, Map<Seq<char>, Seq<char>>>,
    goods: Seq<GoodReq>,
) -> Result<(), SagaError>
    decreases goods.len(),
{
    if goods.len() == 0 {
        Ok(())
    } else if stock_present(live, goods[0].id) && !stock_numeric(live, goods[0].id) {
        Err(SagaError::CorruptRecord)
    } else if release_base(live, goods[0].id) + goods[0].count > u64::MAX {
        Err(SagaError::CorruptRecord)
    } else {
        release_outcome(live, goods.skip(1))
    }
}

/// The count a credit starts from: the shown count, or zero for a good the
/// warehouse holds no record of yet.
pub open spec fn release_base(live: Map<AbsKey, Map<Seq<char>, Seq<char>>>, id: u64) -> int {
    if stock_present(live, id) {
        stock_val(live, id)
    } else {
        0
    }
}

/// What `adjust` decides: every id must be on record, every tag must be an
/// update or a delete, and no count may fall below zero or leave the machine
/// range.
pub open spec fn adjust_outcome(
    live: Map<AbsKey, Map<Seq<char>, Seq<char>>>,
    goods: Seq<GoodAdj>,
) -> Result<(), SagaError>
    decreases goods.len(),
{
    if goods.len() == 0 {
        Ok(())
    } else if !stock_present(live, goods[0].id) {
        Err(SagaError::GoodNotFound(goods[0].id))
    } else if !stock_numeric(live, goods[0].id) {
        Err(SagaError::CorruptRecord)
    } else if goods[0].op is Add {
        Err(SagaError::UnknownOperation)
    } else if stock_val(live, goods[0].id) + goods[0].delta < 0 {
        Err(SagaError::InsufficientStock(goods[0].id))
    } else if stock_val(live, goods[0].id) + goods[0].delta > u64::MAX {
        Err(SagaError::CorruptRecord)
    } else {
        adjust_outcome(live, goods.skip(1))
    }
}

/// Debits every requested good, or nothing at all: every count is read and
/// checked before the first debit is written, and any refusal leaves every
/// record exactly as it was.
pub fn reserve(store: &mut RecordStore, goods: &Vec<GoodReq>, now: u64) -> (r: Result<
    (),
    SagaError,
>)
    requires
        old(store).wf(),
        distinct_req_ids(goods@),
    ensures
        final(store).wf(),
        r == reserve_outcome(old(store).live(now), goods@),
        r is Err ==> final(store).raw() == old(store).raw(),
        r is Ok ==> forall|k: AbsKey|
            final(store).live(now).contains_key(k) == old(store).live(now).contains_key(k),
        r is Ok ==> forall|i: int|
            0 <= i < goods@.len() ==> #[trigger] final(store).live(now)[AbsKey::Good(
                goods@[i].id,
            )] == old(store).live(now)[AbsKey::Good(goods@[i].id)].insert(
                count_field(),
                dec_of((stock_val(old(store).live(now), goods@[i].id) - goods@[i].count) as nat),
            ),
        r is Ok ==> forall|k: AbsKey|
            old(store).live(now).contains_key(k) && (forall|i: int|
                0 <= i < goods@.len() ==> k != AbsKey::Good((#[trigger] goods@[i]).id))
                ==> #[trigger] final(store).live(now)[k] == old(store).live(now)[k],
{
    let ghost live0 = old(store).live(now);
    let n = goods.len();
    let fname = count_field_name();
    let mut stocks: Vec<u64> = Vec::new();
    let mut i: usize = 0;
    proof {
        assert(goods@.skip(0) =~= goods@);
    }
    while i < n
        invariant
            store.wf(),
            *store == *old(store),
            n == goods@.len(),
            live0 == store.live(now),
            distinct_req_ids(goods@),
            0 <= i <= n,
            stocks@.len() == i,
            fname@ == count_field(),
            reserve_outcome(live0, goods@) == reserve_outcome(live0, goods@.skip(i as int)),
            forall|t: int| 0 <= t < i ==> stock_numeric(live0, (#[trigger] goods@[t]).id)
                && goods@[t].count <= stock_val(live0, goods@[t].id)
                && stocks@[t] == stock_val(live0, goods@[t].id),
        decreases n - i,
    {
        let g = goods[i];
        proof {
            assert(goods@.skip(i as int)[0] == goods@[i as int]);
            assert(goods@.skip(i as int).skip(1) =~= goods@.skip(i as int + 1));
        }
        let key = Key::Good(g.id);
        match store.hget(&key, &fname, now) {
            None => {
                return Err(SagaError::GoodNotFound(g.id));
            },
            Some(text) => {
                match parse_u64(text.as_str()) {
                    None => {
                        return Err(SagaError::CorruptRecord);
                    },
                    Some(stock) => {
                        if stock < g.count {
                            return Err(SagaError::InsufficientStock(g.id));
                        }
                        stocks.push(stock);
                    },
                }
            },
        }
        i = i + 1;
    }
    proof {
        assert(goods@.skip(n as int) =~= Seq::<GoodReq>::empty());
    }
    // every good checked out: write all debits
    let mut j: usize = 0;
    while j < n
        invariant
            store.wf(),
            n == goods@.len(),
            distinct_req_ids(goods@),
            0 <= j <= n,
            stocks@.len() == n,
            fname@ == count_field(),
            forall|t: int| 0 <= t < n ==> stock_numeric(live0, (#[trigger] goods@[t]).id)
                && goods@[t].count <= stock_val(live0, goods@[t].id)
                && stocks@[t] == stock_val(live0, goods@[t].id),
            forall|k: AbsKey| store.live(now).contains_key(k) == live0.contains_key(k),
            forall|t: int| 0 <= t < j ==> #[trigger] store.live(now)[AbsKey::Good(goods@[t].id)]
                == live0[AbsKey::Good(goods@[t].id)].insert(
                count_field(),
                dec_of((stock_val(live0, goods@[t].id) - goods@[t].count) as nat),
            ),
            forall|k: AbsKey| live0.contains_key(k) && (forall|t: int|
                0 <= t < j ==> k != AbsKey::Good((#[trigger] goods@[t]).id))
                ==> #[trigger] store.live(now)[k] == live0[k],
        decreases n - j,
    {
        let g = goods[j];
        let key = Key::Good(g.id);
        let value = u64_to_dec(stocks[j] - g.count);
        let ghost pre = *store;
        store.hset(&key, &fname, &value, now);
        proof {
            assert(pre.live(now).contains_key(key@));
            assert(store.live(now) =~= pre.live(now).insert(
                key@,
                pre.live(now)[key@].insert(count_field(), value@),
            ));
            assert(pre.live(now)[key@] == live0[key@]);
        }
        j = j + 1;
    }
    Ok(())
}

/// Credits every listed good unconditionally, creating the record of a good
/// the warehouse did not hold. Used as the compensation of a rollback or a
/// delete; refuses nothing but a corrupt count or a credit beyond machine
/// range, and then changes nothing.
pub fn release(store: &mut RecordStore, goods: &Vec<GoodReq>, now: u64) -> (r: Result<
    (),
    SagaError,
>)
    requires
        old(store).wf(),
        distinct_req_ids(goods@),
    ensures
        final(store).wf(),
        r == release_outcome(old(store).live(now), goods@),
        r is Err ==> final(store).raw() == old(store).raw(),
        r is Ok ==> forall|k: AbsKey|
            final(store).live(now).contains_key(k) == (old(store).live(now).contains_key(k)
                || exists|i: int| 0 <= i < goods@.len() && k == AbsKey::Good(
                (#[trigger] goods@[i]).id)),
        r is Ok ==> forall|i: int|
            0 <= i < goods@.len() ==> #[trigger] final(store).live(now)[AbsKey::Good(
                goods@[i].id,
            )].contains_key(count_field()) && final(store).live(now)[AbsKey::Good(
                goods@[i].id,
            )][count_field()] == dec_of(
                (release_base(old(store).live(now), goods@[i].id) + goods@[i].count) as nat,
            ),
        r is Ok ==> forall|k: AbsKey|
            old(store).live(now).contains_key(k) && (forall|i: int|
                0 <= i < goods@.len() ==> k != AbsKey::Good((#[trigger] goods@[i]).id))
                ==> #[trigger] final(store).live(now)[k] == old(store).live(now)[k],
{
    let ghost live0 = old(store).live(now);
    let n = goods.len();
    let fname = count_field_name();
    let mut bases: Vec<u64> = Vec::new();
    let mut i: usize = 0;
    proof {
        assert(goods@.skip(0) =~= goods@);
    }
    while i < n
        invariant
            store.wf(),
            *store == *old(store),
            n == goods@.len(),
            live0 == store.live(now),
            distinct_req_ids(goods@),
            0 <= i <= n,
            bases@.len() == i,
            fname@ == count_field(),
            release_outcome(live0, goods@) == release_outcome(live0, goods@.skip(i as int)),
            forall|t: int| 0 <= t < i ==> bases@[t] == release_base(live0, (#[trigger] goods@[t]).id)
                && release_base(live0, goods@[t].id) + goods@[t].count <= u64::MAX,
        decreases n - i,
    {
        let g = goods[i];
        proof {
            assert(goods@.skip(i as int)[0] == goods@[i as int]);
            assert(goods@.skip(i as int).skip(1) =~= goods@.skip(i as int + 1));
        }
        let key = Key::Good(g.id);
        let base: u64 = match store.hget(&key, &fname, now) {
            None => 0,
            Some(text) => match parse_u64(text.as_str()) {
                None => {
                    return Err(SagaError::CorruptRecord);
                },
                Some(stock) => stock,
            },
        };
        if base > u64::MAX - g.count {
            return Err(SagaError::CorruptRecord);
        }
        bases.push(base);
        i = i + 1;
    }
    proof {
        assert(goods@.skip(n as int) =~= Seq::<GoodReq>::empty());
    }
    let mut j: usize = 0;
    while j < n
        invariant
            store.wf(),
            n == goods@.len(),
            distinct_req_ids(goods@),
            0 <= j <= n,
            bases@.len() == n,
            fname@ == count_field(),
            forall|t: int| 0 <= t < n ==> bases@[t] == release_base(live0, (#[trigger] goods@[t]).id)
                && release_base(live0, goods@[t].id) + goods@[t].count <= u64::MAX,
            forall|k: AbsKey| store.live(now).contains_key(k) == (live0.contains_key(k)
                || exists|t: int| 0 <= t < j && k == AbsKey::Good((#[trigger] goods@[t]).id)),
            forall|t: int| 0 <= t < j ==> #[trigger] store.live(now)[AbsKey::Good(
                goods@[t].id,
            )].contains_key(count_field()) && store.live(now)[AbsKey::Good(
                goods@[t].id,
            )][count_field()] == dec_of((release_base(live0, goods@[t].id) + goods@[t].count) as nat),
            forall|k: AbsKey| live0.contains_key(k) && (forall|t: int|
                0 <= t < j ==> k != AbsKey::Good((#[trigger] goods@[t]).id))
                ==> #[trigger] store.live(now)[k] == live0[k],
        decreases n - j,
    {
        let g = goods[j];
        let key = Key::Good(g.id);
        let value = u64_to_dec(bases[j] + g.count);
        let ghost pre = *store;
        store.hset(&key, &fname, &value, now);
        proof {
            if pre.live(now).contains_key(key@) {
                assert(store.live(now) =~= pre.live(now).insert(
                    key@,
                    pre.live(now)[key@].insert(count_field(), value@),
                ));
            } else {
                assert(store.live(now) =~= pre.live(now).insert(
                    key@,
                    Map::<Seq<char>, Seq<char>>::empty().insert(count_field(), value@),
                ));
            }
            assert(value@ == dec_of((release_base(live0, g.id) + g.count) as nat));
            assert(store.live(now)[key@].contains_key(count_field()));
            assert(store.live(now)[key@][count_field()] == value@);
            assert forall|t: int| 0 <= t < j implies #[trigger] store.live(now)[AbsKey::Good(
                goods@[t].id,
            )] == pre.live(now)[AbsKey::Good(goods@[t].id)] by {
                assert forall|t: int| 0 <= t < j implies AbsKey::Good((#[trigger] goods@[t]).id)
                    != key@ by {
                    assert(goods@[t].id != goods@[j as int].id);
                }
            }
        }
        j = j + 1;
    }
    Ok(())
}

/// Applies the net stock deltas an update saga computed: all items are
/// validated — known tags, goods on record, no count driven below zero —
/// before any write, so a refused adjustment changes nothing.
pub fn adjust(store: &mut RecordStore, goods: &Vec<GoodAdj>, now: u64) -> (r: Result<
    (),
    SagaError,
>)
    requires
        old(store).wf(),
        distinct_adj_ids(goods@),
    ensures
        final(store).wf(),
        r == adjust_outcome(old(store).live(now), goods@),
        r is Err ==> final(store).raw() == old(store).raw(),
        r is Ok ==> forall|k: AbsKey|
            final(store).live(now).contains_key(k) == old(store).live(now).contains_key(k),
        r is Ok ==> forall|i: int|
            0 <= i < goods@.len() ==> #[trigger] final(store).live(now)[AbsKey::Good(
                goods@[i].id,
            )] == old(store).live(now)[AbsKey::Good(goods@[i].id)].insert(
                count_field(),
                dec_of((stock_val(old(store).live(now), goods@[i].id) + goods@[i].delta) as nat),
            ),
        r is Ok ==> forall|k: AbsKey|
            old(store).live(now).contains_key(k) && (forall|i: int|
                0 <= i < goods@.len() ==> k != AbsKey::Good((#[trigger] goods@[i]).id))
                ==> #[trigger] final(store).live(now)[k] == old(store).live(now)[k],
{
    let ghost live0 = old(store).live(now);
    let n = goods.len();
    let fname = count_field_name();
    let mut news: Vec<u64> = Vec::new();
    let mut i: usize = 0;
    proof {
        assert(goods@.skip(0) =~= goods@);
    }
    while i < n
        invariant
            store.wf(),
            *store == *old(store),
            n == goods@.len(),
            live0 == store.live(now),
            distinct_adj_ids(goods@),
            0 <= i <= n,
            news@.len() == i,
            fname@ == count_field(),
            adjust_outcome(live0, goods@) == adjust_outcome(live0, goods@.skip(i as int)),
            forall|t: int| 0 <= t < i ==> stock_numeric(live0, (#[trigger] goods@[t]).id)
                && 0 <= stock_val(live0, goods@[t].id) + goods@[t].delta <= u64::MAX
                && news@[t] == stock_val(live0, goods@[t].id) + goods@[t].delta,
        decreases n - i,
    {
        let g = goods[i];
        proof {
            assert(goods@.skip(i as int)[0] == goods@[i as int]);
            assert(goods@.skip(i as int).skip(1) =~= goods@.skip(i as int + 1));
        }
        let key = Key::Good(g.id);
        match store.hget(&key, &fname, now) {
            None => {
                return Err(SagaError::GoodNotFound(g.id));
            },
            Some(text) => {
                match parse_u64(text.as_str()) {
                    None => {
                        return Err(SagaError::CorruptRecord);
                    },
                    Some(stock) => {
                        match g.op {
                            GoodOp::Add => {
                                return Err(SagaError::UnknownOperation);
                            },
                            _ => {},
                        }
                        let new_count: u64 = if g.delta >= 0 {
                            let d = g.delta as u64;
                            if stock > u64::MAX - d {
                                return Err(SagaError::CorruptRecord);
                            }
                            stock + d
                        } else {
                            let d = if g.delta == i64::MIN {
                                9223372036854775808u64
                            } else {
                                (-g.delta) as u64
                            };
                            if stock < d {
                                return Err(SagaError::InsufficientStock(g.id));
                            }
                            stock - d
                        };
                        news.push(new_count);
                    },
                }
            },
        }
        i = i + 1;
    }
    proof {
        assert(goods@.skip(n as int) =~= Seq::<GoodAdj>::empty());
    }
    let mut j: usize = 0;
    while j < n
        invariant
            store.wf(),
            n == goods@.len(),
            distinct_adj_ids(goods@),
            0 <= j <= n,
            news@.len() == n,
            fname@ == count_field(),
            forall|t: int| 0 <= t < n ==> stock_numeric(live0, (#[trigger] goods@[t]).id)
                && 0 <= stock_val(live0, goods@[t].id) + goods@[t].delta <= u64::MAX
                && news@[t] == stock_val(live0, goods@[t].id) + goods@[t].delta,
            forall|k: AbsKey| store.live(now).contains_key(k) == live0.contains_key(k),
            forall|t: int| 0 <= t < j ==> #[trigger] store.live(now)[AbsKey::Good(goods@[t].id)]
                == live0[AbsKey::Good(goods@[t].id)].insert(
                count_field(),
                dec_of((stock_val(live0, goods@[t].id) + goods@[t].delta) as nat),
            ),
            forall|k: AbsKey| live0.contains_key(k) && (forall|t: int|
                0 <= t < j ==> k != AbsKey::Good((#[trigger] goods@[t]).id))
                ==> #[trigger] store.live(now)[k] == live0[k],
        decreases n - j,
    {
        let g = goods[j];
        let key = Key::Good(g.id);
        let value = u64_to_dec(news[j]);
        let ghost pre = *store;
        store.hset(&key, &fname, &value, now);
        proof {
            assert(pre.live(now).contains_key(key@));
            assert(store.live(now) =~= pre.live(now).insert(
                key@,
                pre.live(now)[key@].insert(count_field(), value@),
            ));
            assert(pre.live(now)[key@] == live0[key@]);
        }
        j = j + 1;
    }
    Ok(())
}

} // verus!
