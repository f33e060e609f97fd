//! Keyed record store.
//!
//! A hash-map-per-entity store of records, each record a set of named text
//! fields, with atomic single-key operations, per-key expiry deadlines and a
//! copy primitive that copies every field of one record to a fresh key in one
//! atomic step. The copy primitive is the sole synchronization point the saga
//! choreography relies on.

use vstd::prelude::*;
use vstd::map::*;
use crate::assoc::{assoc_map, keys_unique, lemma_assoc_at, lemma_assoc_contains,
    lemma_assoc_push, lemma_assoc_remove, lemma_assoc_singleton, lemma_assoc_update};

verus! {

/// Correlation key of one order, as carried in message envelopes.
pub struct OrderId {
    pub user_id: String,
    pub order_id: String,
}

impl View for OrderId {
    type V = (Seq<char>, Seq<char>);

    open spec fn view(&self) -> (Seq<char>, Seq<char>) {
        (self.user_id@, self.order_id@)
    }
}

impl OrderId {
    pub fn new(user_id: String, order_id: String) -> (r: OrderId)
        ensures
            r@ == (user_id@, order_id@),
    {
        OrderId { user_id, order_id }
    }

    pub fn duplicate(&self) -> (r: OrderId)
        ensures
            r@ == self@,
    {
        OrderId { user_id: self.user_id.clone(), order_id: self.order_id.clone() }
    }

    pub fn id_eq(&self, other: &OrderId) -> (r: bool)
        ensures
            r == (self@ == other@),
    {
        self.user_id == other.user_id && self.order_id == other.order_id
    }
}

/// A key of the store: a live order, the shadow of an order, a stock record
/// of one good, or the counter that assigns order numbers.
pub enum Key {
    Order(OrderId),
    Shadow(OrderId),
    Good(u64),
    Counter,
}

/// The mathematical form of a key.
pub enum AbsKey {
    Order(Seq<char>, Seq<char>),
    Shadow(Seq<char>, Seq<char>),
    Good(u64),
    Counter,
}

pub open spec fn order_key(id: (Seq<char>, Seq<char>)) -> AbsKey {
    AbsKey::Order(id.0, id.1)
}

pub open spec fn shadow_key(id: (Seq<char>, Seq<char>)) -> AbsKey {
    AbsKey::Shadow(id.0, id.1)
}

impl View for Key {
    type V = AbsKey;

    open spec fn view(&self) -> AbsKey {
        match self {
            Key::Order(id) => AbsKey::Order(id.user_id@, id.order_id@),
            Key::Shadow(id) => AbsKey::Shadow(id.user_id@, id.order_id@),
            Key::Good(g) => AbsKey::Good(*g),
            Key::Counter => AbsKey::Counter,
        }
    }
}

impl Key {
    pub fn key_eq(&self, other: &Key) -> (r: bool)
        ensures
            r == (self@ == other@),
    {
        match (self, other) {
            (Key::Order(a), Key::Order(b)) => a.id_eq(b),
            (Key::Shadow(a), Key::Shadow(b)) => a.id_eq(b),
            (Key::Good(a), Key::Good(b)) => a == b,
            (Key::Counter, Key::Counter) => true,
            _ => false,
        }
    }

    pub fn duplicate(&self) -> (r: Key)
        ensures
            r@ == self@,
    {
        match self {
            Key::Order(id) => Key::Order(id.duplicate()),
            Key::Shadow(id) => Key::Shadow(id.duplicate()),
            Key::Good(g) => Key::Good(*g),
            Key::Counter => Key::Counter,
        }
    }
}

/// Outcome of the atomic copy primitive.
#[derive(Clone, Copy, PartialEq, Eq, Structural, Debug)]
pub enum CopyOutcome {
    Copied,
    AlreadyExists,
    SourceMissing,
}

/// One stored record: named text fields, and an optional expiry deadline.
struct Rec {
    fields: Vec<(String, String)>,
    expires_at: Option<u64>,
}

/// The mathematical form of a record.
pub struct RecordV {
    pub fields: Map<Seq<char>, Seq<char>>,
    pub expires_at: Option<u64>,
}

/// A record whose deadline has passed counts as absent.
pub open spec fn expired(r: RecordV, now: u64) -> bool {
    match r.expires_at {
        Some(d) => d <= now,
        None => false,
    }
}

pub open spec fn abs_fields(fs: Seq<(String, String)>) -> Seq<(Seq<char>, Seq<char>)> {
    fs.map_values(|p: (String, String)| (p.0@, p.1@))
}

spec fn rec_v(r: Rec) -> RecordV {
    RecordV { fields: assoc_map(abs_fields(r.fields@)), expires_at: r.expires_at }
}

spec fn abs_entries(s: Seq<(Key, Rec)>) -> Seq<(AbsKey, RecordV)> {
    s.map_values(|e: (Key, Rec)| (e.0@, rec_v(e.1)))
}

spec fn rec_wf(r: Rec) -> bool {
    &&& keys_unique(abs_fields(r.fields@))
    &&& r.fields@.len() > 0
}

/// The keyed record store.
pub struct RecordStore {
    entries: Vec<(Key, Rec)>,
}

impl RecordStore {
    /// Well-formedness: one entry per key, one pair per field name, and no
    /// record without fields.
    pub closed spec fn wf(self) -> bool {
        &&& keys_unique(abs_entries(self.entries@))
        &&& forall|i: int| 0 <= i < self.entries@.len() ==> rec_wf((#[trigger] self.entries@[i]).1)
    }

    /// Every record present, live or past its deadline.
    pub closed spec fn raw(self) -> Map<AbsKey, RecordV> {
        assoc_map(abs_entries(self.entries@))
    }

    /// The records an observer sees at instant `now`: present and not past
    /// their deadline.
    pub open spec fn live(self, now: u64) -> Map<AbsKey, Map<Seq<char>, Seq<char>>> {
        Map::new(
            |k: AbsKey| self.raw().contains_key(k) && !expired(self.raw()[k], now),
            |k: AbsKey| self.raw()[k].fields,
        )
    }

    /// The expiry deadline recorded for a key, if the key is present at all.
    pub open spec fn deadline_of(self, k: AbsKey) -> Option<u64>
        recommends
            self.raw().contains_key(k),
    {
        self.raw()[k].expires_at
    }

    pub fn new() -> (s: RecordStore)
        ensures
            s.wf(),
            s.raw() == Map::<AbsKey, RecordV>::empty(),
    {
        let s = RecordStore { entries: Vec::new() };
        proof {
            assert(abs_entries(s.entries@) =~= Seq::<(AbsKey, RecordV)>::empty());
        }
        s
    }

    /// Index of the entry for `key`, if present (live or expired).
    fn find(&self, key: &Key) -> (r: Option<usize>)
        requires
            self.wf(),
        ensures
            match r {
                Some(i) => i < self.entries@.len() && self.entries@[i as int].0@ == key@
                    && self.raw().contains_key(key@) && self.raw()[key@] == rec_v(
                    self.entries@[i as int].1,
                ),
                None => !self.raw().contains_key(key@),
            },
    {
        let n = self.entries.len();
        let mut i: usize = 0;
        while i < n
            invariant
                self.wf(),
                n == self.entries@.len(),
                0 <= i <= n,
                forall|j: int| 0 <= j < i ==> (#[trigger] self.entries@[j]).0@ != key@,
            decreases n - i,
        {
            if self.entries[i].0.key_eq(key) {
                proof {
                    assert(abs_entries(self.entries@)[i as int]
                        == (self.entries@[i as int].0@, rec_v(self.entries@[i as int].1)));
                    lemma_assoc_at(abs_entries(self.entries@), i as int);
                }
                return Some(i);
            }
            i = i + 1;
        }
        proof {
            lemma_assoc_contains(abs_entries(self.entries@), key@);
            assert(forall|j: int|
                0 <= j < self.entries@.len() ==> (#[trigger] abs_entries(self.entries@)[j]).0
                    == self.entries@[j].0@);
        }
        None
    }

    /// Index of the field named `name` in a record's field list.
    fn find_field(fields: &Vec<(String, String)>, name: &String) -> (r: Option<usize>)
        requires
            keys_unique(abs_fields(fields@)),
        ensures
            match r {
                Some(j) => j < fields@.len() && fields@[j as int].0@ == name@
                    && assoc_map(abs_fields(fields@)).contains_key(name@)
                    && assoc_map(abs_fields(fields@))[name@] == fields@[j as int].1@,
                None => !assoc_map(abs_fields(fields@)).contains_key(name@),
            },
    {
        let n = fields.len();
        let mut j: usize = 0;
        while j < n
            invariant
                keys_unique(abs_fields(fields@)),
                n == fields@.len(),
                0 <= j <= n,
                forall|t: int| 0 <= t < j ==> (#[trigger] fields@[t]).0@ != name@,
            decreases n - j,
        {
            if fields[j].0 == *name {
                proof {
                    assert(abs_fields(fields@)[j as int] == (fields@[j as int].0@,
                    fields@[j as int].1@));
                    lemma_assoc_at(abs_fields(fields@), j as int);
                }
                return Some(j);
            }
            j = j + 1;
        }
        proof {
            lemma_assoc_contains(abs_fields(fields@), name@);
            assert(forall|t: int|
                0 <= t < fields@.len() ==> (#[trigger] abs_fields(fields@)[t]).0
                    == fields@[t].0@);
        }
        None
    }

    /// Does `key` hold a live record at instant `now`?
    pub fn exists_key(&self, key: &Key, now: u64) -> (r: bool)
        requires
            self.wf(),
        ensures
            r == self.live(now).contains_key(key@),
    {
        match self.find(key) {
            None => false,
            Some(i) => match self.entries[i].1.expires_at {
                Some(d) => d > now,
                None => true,
            },
        }
    }

    /// Value of one field of the record at `key`, at instant `now`.
    pub fn hget(&self, key: &Key, field: &String, now: u64) -> (r: Option<String>)
        requires
            self.wf(),
        ensures
            r is Some <==> self.live(now).contains_key(key@)
                && self.live(now)[key@].contains_key(field@),
            r is Some ==> r->0@ == self.live(now)[key@][field@],
    {
        match self.find(key) {
            None => None,
            Some(i) => {
                let expired_now = match self.entries[i].1.expires_at {
                    Some(d) => d <= now,
                    None => false,
                };
                if expired_now {
                    return None;
                }
                match Self::find_field(&self.entries[i].1.fields, field) {
                    None => None,
                    Some(j) => Some(self.entries[i].1.fields[j].1.clone()),
                }
            },
        }
    }

    /// Every field of the record at `key`, at instant `now`.
    pub fn hgetall(&self, key: &Key, now: u64) -> (r: Option<Vec<(String, String)>>)
        requires
            self.wf(),
        ensures
            r is Some <==> self.live(now).contains_key(key@),
            r is Some ==> {
                &&& assoc_map(abs_fields(r->0@)) == self.live(now)[key@]
                &&& keys_unique(abs_fields(r->0@))
                &&& r->0@.len() > 0
            },
    {
        match self.find(key) {
            None => None,
            Some(i) => {
                let expired_now = match self.entries[i].1.expires_at {
                    Some(d) => d <= now,
                    None => false,
                };
                if expired_now {
                    return None;
                }
                Some(Self::clone_fields(&self.entries[i].1.fields))
            },
        }
    }

    /// Writes one field of the record at `key`, creating the record if `key`
    /// holds none at instant `now`; a fresh record carries no deadline.
    pub fn hset(&mut self, key: &Key, field: &String, value: &String, now: u64)
        requires
            old(self).wf(),
        ensures
            final(self).wf(),
            old(self).live(now).contains_key(key@) ==> final(self).raw() == old(self).raw().insert(
                key@,
                RecordV {
                    fields: old(self).raw()[key@].fields.insert(field@, value@),
                    expires_at: old(self).raw()[key@].expires_at,
                },
            ),
            !old(self).live(now).contains_key(key@) ==> final(self).raw() == old(self).raw().insert(
                key@,
                RecordV {
                    fields: Map::<Seq<char>, Seq<char>>::empty().insert(field@, value@),
                    expires_at: None,
                },
            ),
    {
        let ghost pre = *self;
        let found = self.find(key);
        match found {
            None => {
                let mut fields: Vec<(String, String)> = Vec::new();
                fields.push((field.clone(), value.clone()));
                let ghost fseq = fields@;
                self.entries.push((key.duplicate(), Rec { fields, expires_at: None }));
                proof {
                    let e = (key@, rec_v(self.entries@.last().1));
                    assert(abs_entries(self.entries@) =~= abs_entries(pre.entries@).push(e));
                    lemma_assoc_contains(abs_entries(pre.entries@), key@);
                    lemma_assoc_push(abs_entries(pre.entries@), e);
                    assert(abs_fields(fseq) =~= seq![(field@, value@)]);
                    lemma_assoc_singleton(abs_fields(fseq));
                    assert(e.1.fields == Map::<Seq<char>, Seq<char>>::empty().insert(
                        field@,
                        value@,
                    ));
                }
            },
            Some(i) => {
                let live_now = match self.entries[i].1.expires_at {
                    Some(d) => d > now,
                    None => true,
                };
                if !live_now {
                    let (k0, _old_rec) = self.entries.remove(i);
                    let mut fields: Vec<(String, String)> = Vec::new();
                    fields.push((field.clone(), value.clone()));
                    let ghost fseq = fields@;
                    self.entries.insert(i, (k0, Rec { fields, expires_at: None }));
                    proof {
                        let e = (key@, rec_v(self.entries@[i as int].1));
                        assert(self.entries@ =~= pre.entries@.update(i as int, self.entries@[i as int]));
                        assert(abs_entries(self.entries@) =~= abs_entries(pre.entries@).update(
                            i as int,
                            e,
                        ));
                        lemma_assoc_update(abs_entries(pre.entries@), i as int, e);
                        assert(abs_fields(fseq) =~= seq![(field@, value@)]);
                        lemma_assoc_singleton(abs_fields(fseq));
                        assert(e.1.fields == Map::<Seq<char>, Seq<char>>::empty().insert(
                            field@,
                            value@,
                        ));
                    }
                } else {
                    let (k0, rec0) = self.entries.remove(i);
                    let Rec { fields: mut fs, expires_at: exp } = rec0;
                    let ghost fs_pre = fs@;
                    let fj = Self::find_field(&fs, field);
                    match fj {
                        Some(j) => {
                            fs.remove(j);
                            fs.insert(j, (field.clone(), value.clone()));
                            proof {
                                assert(fs@ =~= fs_pre.update(j as int, fs@[j as int]));
                                assert(abs_fields(fs@) =~= abs_fields(fs_pre).update(
                                    j as int,
                                    (field@, value@),
                                ));
                                lemma_assoc_update(abs_fields(fs_pre), j as int, (field@, value@));
                            }
                        },
                        None => {
                            fs.push((field.clone(), value.clone()));
                            proof {
                                assert(abs_fields(fs@) =~= abs_fields(fs_pre).push(
                                    (field@, value@),
                                ));
                                lemma_assoc_push(abs_fields(fs_pre), (field@, value@));
                            }
                        },
                    }
                    self.entries.insert(i, (k0, Rec { fields: fs, expires_at: exp }));
                    proof {
                        let e = (key@, rec_v(self.entries@[i as int].1));
                        assert(self.entries@ =~= pre.entries@.update(i as int, self.entries@[i as int]));
                        assert(abs_entries(self.entries@) =~= abs_entries(pre.entries@).update(
                            i as int,
                            e,
                        ));
                        lemma_assoc_update(abs_entries(pre.entries@), i as int, e);
                    }
                }
            },
        }
    }

    /// Removes one field of the live record at `key`; removing the last field
    /// removes the record. Absent keys and absent fields are left as they are.
    pub fn hdel(&mut self, key: &Key, field: &String, now: u64)
        requires
            old(self).wf(),
        ensures
            final(self).wf(),
            !(old(self).live(now).contains_key(key@) && old(self).live(now)[key@].contains_key(
                field@,
            )) ==> final(self).raw() == old(self).raw(),
            old(self).live(now).contains_key(key@) && old(self).live(now)[key@].contains_key(
                field@,
            ) ==> {
                if old(self).raw()[key@].fields.remove(field@) == Map::<Seq<char>, Seq<char>>::empty() {
                    final(self).raw() == old(self).raw().remove(key@)
                } else {
                    final(self).raw() == old(self).raw().insert(
                        key@,
                        RecordV {
                            fields: old(self).raw()[key@].fields.remove(field@),
                            expires_at: old(self).raw()[key@].expires_at,
                        },
                    )
                }
            },
    {
        let ghost pre = *self;
        let found = self.find(key);
        match found {
            None => {},
            Some(i) => {
                let live_now = match self.entries[i].1.expires_at {
                    Some(d) => d > now,
                    None => true,
                };
                if live_now {
                    let fj = Self::find_field(&self.entries[i].1.fields, field);
                    match fj {
                        None => {},
                        Some(j) => {
                            if self.entries[i].1.fields.len() == 1 {
                                self.entries.remove(i);
                                proof {
                                    assert(abs_entries(self.entries@) =~= abs_entries(
                                        pre.entries@,
                                    ).remove(i as int));
                                    lemma_assoc_remove(abs_entries(pre.entries@), i as int);
                                    let fsq = abs_fields(pre.entries@[i as int].1.fields@);
                                    let fm = pre.raw()[key@].fields;
                                    assert(fsq.len() == 1);
                                    lemma_assoc_singleton(fsq);
                                    assert(fsq[0].0 == field@);
                                    assert(fm == Map::<Seq<char>, Seq<char>>::empty().insert(
                                        field@,
                                        fsq[0].1,
                                    ));
                                    assert(fm.remove(field@) =~= Map::<Seq<char>, Seq<char>>::empty());
                                }
                            } else {
                                let (k0, rec0) = self.entries.remove(i);
                                let Rec { fields: mut fs, expires_at: exp } = rec0;
                                let ghost fs_pre = fs@;
                                fs.remove(j);
                                self.entries.insert(i, (k0, Rec { fields: fs, expires_at: exp }));
                                proof {
                                    assert(abs_fields(fs@) =~= abs_fields(fs_pre).remove(j as int));
                                    lemma_assoc_remove(abs_fields(fs_pre), j as int);
                                    let e = (key@, rec_v(self.entries@[i as int].1));
                                    assert(self.entries@ =~= pre.entries@.update(
                                        i as int,
                                        self.entries@[i as int],
                                    ));
                                    assert(abs_entries(self.entries@) =~= abs_entries(
                                        pre.entries@,
                                    ).update(i as int, e));
                                    lemma_assoc_update(abs_entries(pre.entries@), i as int, e);
                                    // a second field remains, so the map is not empty
                                    let fm = pre.raw()[key@].fields;
                                    let t: int = if j == 0 { 1 } else { 0 };
                                    lemma_assoc_at(abs_fields(fs_pre), t);
                                    assert(fm.remove(field@).contains_key(fs_pre[t].0@));
                                    assert(fm.remove(field@) != Map::<Seq<char>, Seq<char>>::empty());
                                }
                            }
                        },
                    }
                }
            },
        }
    }

    /// Removes the record at `key` outright, live or expired; removing an
    /// absent key changes nothing.
    pub fn del(&mut self, key: &Key)
        requires
            old(self).wf(),
        ensures
            final(self).wf(),
            final(self).raw() == old(self).raw().remove(key@),
    {
        let ghost pre = *self;
        let found = self.find(key);
        match found {
            None => {
                proof {
                    assert(pre.raw().remove(key@) =~= pre.raw());
                }
            },
            Some(i) => {
                self.entries.remove(i);
                proof {
                    assert(abs_entries(self.entries@) =~= abs_entries(pre.entries@).remove(
                        i as int,
                    ));
                    lemma_assoc_remove(abs_entries(pre.entries@), i as int);
                }
            },
        }
    }

    /// Sets the expiry deadline of the live record at `key`; an absent key is
    /// left as it is.
    pub fn expire(&mut self, key: &Key, deadline: u64, now: u64)
        requires
            old(self).wf(),
        ensures
            final(self).wf(),
            old(self).live(now).contains_key(key@) ==> final(self).raw() == old(self).raw().insert(
                key@,
                RecordV {
                    fields: old(self).raw()[key@].fields,
                    expires_at: Some(deadline),
                },
            ),
            !old(self).live(now).contains_key(key@) ==> final(self).raw() == old(self).raw(),
    {
        let ghost pre = *self;
        let found = self.find(key);
        match found {
            None => {},
            Some(i) => {
                let live_now = match self.entries[i].1.expires_at {
                    Some(d) => d > now,
                    None => true,
                };
                if live_now {
                    let (k0, rec0) = self.entries.remove(i);
                    let Rec { fields: fs, expires_at: _ } = rec0;
                    self.entries.insert(i, (k0, Rec { fields: fs, expires_at: Some(deadline) }));
                    proof {
                        let e = (key@, rec_v(self.entries@[i as int].1));
                        assert(self.entries@ =~= pre.entries@.update(
                            i as int,
                            self.entries@[i as int],
                        ));
                        assert(abs_entries(self.entries@) =~= abs_entries(pre.entries@).update(
                            i as int,
                            e,
                        ));
                        lemma_assoc_update(abs_entries(pre.entries@), i as int, e);
                    }
                }
            },
        }
    }

    /// The atomic copy primitive: copies every field of the record at `src`
    /// to `dst` in one step, provided `dst` holds no live record and `src`
    /// does. The fresh copy carries no deadline. This conditional write is
    /// the saga's only synchronization point.
    pub fn copy_atomic(&mut self, src: &Key, dst: &Key, now: u64) -> (r: CopyOutcome)
        requires
            old(self).wf(),
        ensures
            final(self).wf(),
            r == CopyOutcome::AlreadyExists <==> old(self).live(now).contains_key(dst@),
            r == CopyOutcome::SourceMissing <==> !old(self).live(now).contains_key(dst@)
                && !old(self).live(now).contains_key(src@),
            r == CopyOutcome::Copied <==> !old(self).live(now).contains_key(dst@) && old(
                self,
            ).live(now).contains_key(src@),
            r == CopyOutcome::Copied ==> final(self).raw() == old(self).raw().insert(
                dst@,
                RecordV { fields: old(self).live(now)[src@], expires_at: None },
            ),
            r != CopyOutcome::Copied ==> final(self).raw() == old(self).raw(),
    {
        let ghost pre = *self;
        if self.exists_key(dst, now) {
            return CopyOutcome::AlreadyExists;
        }
        if !self.exists_key(src, now) {
            return CopyOutcome::SourceMissing;
        }
        let si = match self.find(src) {
            Some(si) => si,
            None => {
                return CopyOutcome::SourceMissing;
            },
        };
        let fields = Self::clone_fields(&self.entries[si].1.fields);
        let ghost fm = assoc_map(abs_fields(fields@));
        proof {
            assert(fm == pre.live(now)[src@]);
        }
        // drop a dst record past its deadline, if one is still present
        let ghost mid_expect = pre.raw().remove(dst@);
        let found_dst = self.find(dst);
        match found_dst {
            None => {
                proof {
                    assert(pre.raw().remove(dst@) =~= pre.raw());
                }
            },
            Some(di) => {
                self.entries.remove(di);
                proof {
                    assert(abs_entries(self.entries@) =~= abs_entries(pre.entries@).remove(
                        di as int,
                    ));
                    lemma_assoc_remove(abs_entries(pre.entries@), di as int);
                }
            },
        }
        let ghost mid = *self;
        self.entries.push((dst.duplicate(), Rec { fields, expires_at: None }));
        proof {
            let e = (dst@, rec_v(self.entries@.last().1));
            assert(abs_entries(self.entries@) =~= abs_entries(mid.entries@).push(e));
            lemma_assoc_contains(abs_entries(mid.entries@), dst@);
            lemma_assoc_push(abs_entries(mid.entries@), e);
            assert(e.1 == RecordV { fields: fm, expires_at: None });
            assert(self.raw() =~= pre.raw().insert(
                dst@,
                RecordV { fields: pre.live(now)[src@], expires_at: None },
            ));
        }
        CopyOutcome::Copied
    }

    fn clone_fields(fields: &Vec<(String, String)>) -> (r: Vec<(String, String)>)
        ensures
            abs_fields(r@) == abs_fields(fields@),
            r@.len() == fields@.len(),
    {
        let n = fields.len();
        let mut r: Vec<(String, String)> = Vec::new();
        let mut j: usize = 0;
        while j < n
            invariant
                n == fields@.len(),
                0 <= j <= n,
                r@.len() == j,
                forall|t: int| 0 <= t < j ==> (#[trigger] r@[t]).0@ == fields@[t].0@
                    && r@[t].1@ == fields@[t].1@,
            decreases n - j,
        {
            r.push((fields[j].0.clone(), fields[j].1.clone()));
            j = j + 1;
        }
        proof {
            assert(abs_fields(r@) =~= abs_fields(fields@));
        }
        r
    }
}

} // verus!
