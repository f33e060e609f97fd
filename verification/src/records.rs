//! The field layout of order and stock records.
//!
//! An order record holds a `status` field and one `good_id:<id>` field per
//! good, whose value spells the reserved count; a stock record holds a single
//! `count` field. This module fixes those names and the codec between field
//! lists and structured orders.

use vstd::prelude::*;
use crate::num::{all_digits, dec_of, dec_val, digit_char, digit_val, is_digit, lemma_dec_round_trip, lemma_dec_val_nonneg, parse_u64, u64_to_dec};

verus! {

pub open spec fn status_field() -> Seq<char> {
    "status"@
}

pub open spec fn count_field() -> Seq<char> {
    "count"@
}

/// Name of the field that carries the count of one good in an order record.
pub open spec fn good_field(id: u64) -> Seq<char> {
    "good_id:"@ + dec_of(id as nat)
}

pub fn status_field_name() -> (s: String)
    ensures
        s@ == status_field(),
{
    String::from_str("status")
}

pub fn count_field_name() -> (s: String)
    ensures
        s@ == count_field(),
{
    String::from_str("count")
}

/// Name of the single field of the order-number counter record.
pub open spec fn counter_field() -> Seq<char> {
    "value"@
}

pub fn counter_field_name() -> (s: String)
    ensures
        s@ == counter_field(),
{
    String::from_str("value")
}

pub fn good_field_name(id: u64) -> (s: String)
    ensures
        s@ == good_field(id),
{
    let mut s = String::from_str("good_id:");
    let digits = u64_to_dec(id);
    s.append(digits.as_str());
    s
}

/// A good field never collides with the status field.
pub proof fn lemma_good_field_not_status(id: u64)
    ensures
        good_field(id) != status_field(),
{
    reveal_strlit("status");
    reveal_strlit("good_id:");
    lemma_dec_round_trip(id as nat);
    assert(good_field(id).len() >= 9);
    assert(status_field().len() == 6);
}

/// Lifecycle state of an order: it only ever advances, and `Deleted` is
/// terminal.
#[derive(Clone, Copy, PartialEq, Eq, Structural, Debug)]
pub enum Status {
    Created,
    Payed,
    Deleted,
}

pub open spec fn status_name(st: Status) -> Seq<char> {
    match st {
        Status::Created => "created"@,
        Status::Payed => "payed"@,
        Status::Deleted => "deleted"@,
    }
}

pub open spec fn status_of_name(s: Seq<char>) -> Option<Status> {
    if s == "created"@ {
        Some(Status::Created)
    } else if s == "payed"@ {
        Some(Status::Payed)
    } else if s == "deleted"@ {
        Some(Status::Deleted)
    } else {
        None
    }
}

/// The three status spellings are pairwise distinct, and each reads back
/// as its own status.
pub proof fn lemma_status_names()
    ensures
        status_name(Status::Created) != status_name(Status::Payed),
        status_name(Status::Created) != status_name(Status::Deleted),
        status_name(Status::Payed) != status_name(Status::Deleted),
        status_of_name(status_name(Status::Created)) == Some(Status::Created),
        status_of_name(status_name(Status::Payed)) == Some(Status::Payed),
        status_of_name(status_name(Status::Deleted)) == Some(Status::Deleted),
{
    reveal_strlit("created");
    reveal_strlit("payed");
    reveal_strlit("deleted");
    assert("created"@.len() == 7);
    assert("payed"@.len() == 5);
    assert("deleted"@.len() == 7);
    assert("created"@[0] == 'c');
    assert("deleted"@[0] == 'd');
}

pub fn status_text(st: Status) -> (s: String)
    ensures
        s@ == status_name(st),
{
    match st {
        Status::Created => String::from_str("created"),
        Status::Payed => String::from_str("payed"),
        Status::Deleted => String::from_str("deleted"),
    }
}

pub fn parse_status(s: &String) -> (r: Option<Status>)
    ensures
        r == status_of_name(s@),
{
    if *s == String::from_str("created") {
        Some(Status::Created)
    } else if *s == String::from_str("payed") {
        Some(Status::Payed)
    } else if *s == String::from_str("deleted") {
        Some(Status::Deleted)
    } else {
        None
    }
}

/// An order as the store records it: its status and its goods, one count
/// per good id.
pub struct Order {
    pub status: Status,
    pub goods: Vec<crate::inventory::GoodReq>,
}

/// The field set of an order record: the status field plus one good field
/// per entry.
pub open spec fn order_fields(st: Status, goods: Seq<crate::inventory::GoodReq>) -> Map<
    Seq<char>,
    Seq<char>,
>
    decreases goods.len(),
{
    if goods.len() == 0 {
        Map::<Seq<char>, Seq<char>>::empty().insert(status_field(), status_name(st))
    } else {
        order_fields(st, goods.drop_last()).insert(
            good_field(goods.last().id),
            dec_of(goods.last().count as nat),
        )
    }
}

/// Reads one field pair back as a good: the name must be the canonical
/// spelling `good_id:<id>` and the value a count in machine range.
pub open spec fn good_of_field(name: Seq<char>, val: Seq<char>) -> Option<
    crate::inventory::GoodReq,
> {
    if name.len() > 8 && name.subrange(0, 8) == "good_id:"@ && {
        let digits = name.skip(8);
        all_digits(digits) && dec_val(digits) <= u64::MAX && (digits.len() == 1 || digits[0]
            != '0') && val.len() > 0 && all_digits(val) && dec_val(val) <= u64::MAX && (val.len()
            == 1 || val[0] != '0')
    } {
        Some(
            crate::inventory::GoodReq {
                id: dec_val(name.skip(8)) as u64,
                count: dec_val(val) as u64,
            },
        )
    } else {
        None
    }
}

/// A digit run without a leading zero is exactly the spelling its value
/// renders back to.
pub proof fn lemma_canonical_digits(s: Seq<char>)
    requires
        all_digits(s),
        s.len() >= 1,
        s.len() > 1 ==> s[0] != '0',
    ensures
        dec_val(s) >= 0,
        dec_of(dec_val(s) as nat) == s,
    decreases s.len(),
{
    lemma_dec_val_nonneg(s);
    let v = dec_val(s);
    if s.len() == 1 {
        assert(is_digit(s[0]));
        assert(s.drop_last() =~= Seq::<char>::empty());
        assert(dec_val(s.drop_last()) == 0);
        assert(v == digit_val(s[0]));
        assert(0 <= v <= 9);
        assert(digit_char(v) == s[0]);
        assert(dec_of(v as nat) =~= s);
    } else {
        let hd = s.drop_last();
        assert(all_digits(hd)) by {
            assert(forall|i: int| 0 <= i < hd.len() ==> hd[i] == s[i]);
        }
        assert(hd[0] == s[0]);
        lemma_canonical_digits(hd);
        lemma_dec_val_positive(hd);
        let d = digit_val(s.last());
        assert(v == dec_val(hd) * 10 + d);
        assert(v / 10 == dec_val(hd) && v % 10 == d) by (nonlinear_arith)
            requires
                v == dec_val(hd) * 10 + d,
                0 <= d <= 9,
                dec_val(hd) >= 0,
        ;
        assert(v >= 10) by (nonlinear_arith)
            requires
                v == dec_val(hd) * 10 + d,
                dec_val(hd) >= 1,
                d >= 0,
        ;
        assert(digit_char(digit_val(s.last())) == s.last()) by {
            assert(is_digit(s.last()));
        }
        assert(dec_of(v as nat) == dec_of(dec_val(hd) as nat).push(s.last()));
        assert(dec_of(v as nat) =~= s);
    }
}

proof fn lemma_dec_val_positive(s: Seq<char>)
    requires
        all_digits(s),
        s.len() >= 1,
        s[0] != '0',
    ensures
        dec_val(s) >= 1,
    decreases s.len(),
{
    if s.len() == 1 {
        assert(is_digit(s[0]));
        assert(s.drop_last() =~= Seq::<char>::empty());
        assert(dec_val(s.drop_last()) == 0);
        assert(digit_val(s[0]) >= 1);
    } else {
        let hd = s.drop_last();
        assert(all_digits(hd)) by {
            assert(forall|i: int| 0 <= i < hd.len() ==> hd[i] == s[i]);
        }
        lemma_dec_val_positive(hd);
        assert(is_digit(s.last()));
        assert(dec_val(s) == dec_val(hd) * 10 + digit_val(s.last()));
        assert(dec_val(hd) * 10 >= 10) by (nonlinear_arith)
            requires
                dec_val(hd) >= 1,
        ;
    }
}

/// A pair read back as a good names exactly the canonical field of its id.
pub proof fn lemma_good_field_of(name: Seq<char>, val: Seq<char>)
    requires
        good_of_field(name, val) is Some,
    ensures
        name == good_field(good_of_field(name, val)->0.id),
        val == dec_of(good_of_field(name, val)->0.count as nat),
{
    let digits = name.skip(8);
    lemma_canonical_digits(digits);
    assert(name =~= name.subrange(0, 8) + digits);
    lemma_canonical_digits(val);
}

/// Reads one field pair back as a good; the executable form of
/// `good_of_field`.
pub fn parse_good_field(name: &String, val: &String) -> (r: Option<crate::inventory::GoodReq>)
    ensures
        r == good_of_field(name@, val@),
{
    let n = name.unicode_len();
    proof {
        reveal_strlit("good_id:");
    }
    if n <= 8 {
        return None;
    }
    let prefix = "good_id:";
    let mut t: usize = 0;
    while t < 8
        invariant
            0 <= t <= 8,
            n == name@.len() && n > 8,
            prefix@ == "good_id:"@,
            prefix@.len() == 8,
            forall|u: int| 0 <= u < t ==> name@[u] == prefix@[u],
        decreases 8 - t,
    {
        if name.as_str().get_char(t) != prefix.get_char(t) {
            proof {
                assert(name@[t as int] != prefix@[t as int]);
                assert(name@.subrange(0, 8) != "good_id:"@);
            }
            return None;
        }
        t = t + 1;
    }
    proof {
        assert(name@.subrange(0, 8) =~= "good_id:"@);
    }
    let digits = name.as_str().substring_char(8, n);
    let id = match parse_u64(digits) {
        None => {
            return None;
        },
        Some(id) => id,
    };
    if digits.unicode_len() > 1 && digits.get_char(0) == '0' {
        return None;
    }
    let count = match parse_u64(val.as_str()) {
        None => {
            return None;
        },
        Some(c) => c,
    };
    if val.unicode_len() > 1 && val.as_str().get_char(0) == '0' {
        return None;
    }
    proof {
        assert(name@.skip(8) =~= name@.subrange(8, n as int));
    }
    Some(crate::inventory::GoodReq { id, count })
}

/// The order read back stands for exactly these field pairs: the status
/// pair is there, each good with its stored count is there, ids are
/// pairwise distinct, and no pair is left unaccounted for.
pub open spec fn order_matches_fields(
    st: Status,
    goods: Seq<crate::inventory::GoodReq>,
    fs: Seq<(Seq<char>, Seq<char>)>,
) -> bool {
    &&& has_pair(fs, status_field(), status_name(st))
    &&& crate::inventory::distinct_req_ids(goods)
    &&& forall|i: int| 0 <= i < goods.len() ==> has_pair(
        fs,
        good_field((#[trigger] goods[i]).id),
        dec_of(goods[i].count as nat),
    )
    &&& forall|j: int| 0 <= j < fs.len() ==> (#[trigger] fs[j]).0 == status_field() || (
    exists|i: int| 0 <= i < goods.len() && fs[j].0 == good_field((#[trigger] goods[i]).id))
}

/// Can this field map be read back as an order? One valid status value,
/// and nothing else but valid good fields.
pub open spec fn order_fields_ok(fields: Map<Seq<char>, Seq<char>>) -> bool {
    &&& fields.contains_key(status_field())
    &&& status_of_name(fields[status_field()]) is Some
    &&& forall|f: Seq<char>| fields.dom().contains(f) && f != status_field()
        ==> good_of_field(f, #[trigger] fields[f]) is Some
}

/// The order read back matches the field map: the status value, each good
/// with its stored count, and nothing unaccounted for.
pub open spec fn order_matches_map(
    st: Status,
    goods: Seq<crate::inventory::GoodReq>,
    fields: Map<Seq<char>, Seq<char>>,
) -> bool {
    &&& fields.contains_key(status_field())
    &&& fields[status_field()] == status_name(st)
    &&& crate::inventory::distinct_req_ids(goods)
    &&& forall|i: int| 0 <= i < goods.len() ==> fields.contains_key(
        good_field((#[trigger] goods[i]).id),
    ) && fields[good_field(goods[i].id)] == dec_of(goods[i].count as nat)
    &&& forall|f: Seq<char>| #[trigger] fields.dom().contains(f) ==> f == status_field() || (
    exists|i: int| 0 <= i < goods.len() && f == good_field((#[trigger] goods[i]).id))
}

/// Reading a record's pair list is reading its field map.
pub proof fn lemma_parseable_bridge(fs: Seq<(Seq<char>, Seq<char>)>)
    requires
        crate::assoc::keys_unique(fs),
    ensures
        fields_parseable(fs) <==> order_fields_ok(crate::assoc::assoc_map(fs)),
{
    let m = crate::assoc::assoc_map(fs);
    if fields_parseable(fs) {
        let j = choose|j: int|
            0 <= j < fs.len() && (#[trigger] fs[j]).0 == status_field() && status_of_name(
                fs[j].1,
            ) is Some;
        crate::assoc::lemma_assoc_at(fs, j);
        assert forall|f: Seq<char>| m.dom().contains(f) && f != status_field() implies
            good_of_field(f, #[trigger] m[f]) is Some by {
            crate::assoc::lemma_assoc_contains(fs, f);
            let t = choose|t: int| 0 <= t < fs.len() && (#[trigger] fs[t]).0 == f;
            crate::assoc::lemma_assoc_at(fs, t);
        }
    }
    if order_fields_ok(m) {
        crate::assoc::lemma_assoc_contains(fs, status_field());
        let j = choose|j: int| 0 <= j < fs.len() && (#[trigger] fs[j]).0 == status_field();
        crate::assoc::lemma_assoc_at(fs, j);
        assert(fs[j].0 == status_field() && status_of_name(fs[j].1) is Some);
        assert forall|t: int| 0 <= t < fs.len() implies (#[trigger] fs[t]).0 == status_field()
            || good_of_field(fs[t].0, fs[t].1) is Some by {
            crate::assoc::lemma_assoc_at(fs, t);
            assert(m.dom().contains(fs[t].0));
        }
    }
}

/// An order read from a record's pair list matches the record's field map.
pub proof fn lemma_matches_bridge(
    st: Status,
    goods: Seq<crate::inventory::GoodReq>,
    fs: Seq<(Seq<char>, Seq<char>)>,
)
    requires
        crate::assoc::keys_unique(fs),
        order_matches_fields(st, goods, fs),
    ensures
        order_matches_map(st, goods, crate::assoc::assoc_map(fs)),
{
    let m = crate::assoc::assoc_map(fs);
    let j = choose|j: int| 0 <= j < fs.len() && #[trigger] fs[j] == (
        status_field(),
        status_name(st),
    );
    crate::assoc::lemma_assoc_at(fs, j);
    assert forall|i: int| 0 <= i < goods.len() implies m.contains_key(
        good_field((#[trigger] goods[i]).id),
    ) && m[good_field(goods[i].id)] == dec_of(goods[i].count as nat) by {
        let t = choose|t: int|
            0 <= t < fs.len() && #[trigger] fs[t] == (
                good_field(goods[i].id),
                dec_of(goods[i].count as nat),
            );
        crate::assoc::lemma_assoc_at(fs, t);
    }
    assert forall|f: Seq<char>| #[trigger] m.dom().contains(f) implies f == status_field() || (
    exists|i: int| 0 <= i < goods.len() && f == good_field((#[trigger] goods[i]).id)) by {
        crate::assoc::lemma_assoc_contains(fs, f);
        let t = choose|t: int| 0 <= t < fs.len() && (#[trigger] fs[t]).0 == f;
    }
}

/// Does the pair list hold this name-value pair?
pub open spec fn has_pair(fs: Seq<(Seq<char>, Seq<char>)>, name: Seq<char>, val: Seq<char>) -> bool {
    exists|j: int| 0 <= j < fs.len() && #[trigger] fs[j] == (name, val)
}

/// Can the pair list be read back as an order? One valid status field, and
/// nothing else but valid good fields.
pub open spec fn fields_parseable(fs: Seq<(Seq<char>, Seq<char>)>) -> bool {
    &&& exists|j: int| 0 <= j < fs.len() && (#[trigger] fs[j]).0 == status_field()
        && status_of_name(fs[j].1) is Some
    &&& forall|j: int| 0 <= j < fs.len() ==> (#[trigger] fs[j]).0 == status_field()
        || good_of_field(fs[j].0, fs[j].1) is Some
}

/// Reads an order back from the field pairs of its record. Succeeds exactly
/// on a record with one valid status field and valid good fields and
/// nothing else; the goods come out with their stored counts, one entry per
/// good field, in record order.
pub fn order_from_fields(fields: &Vec<(String, String)>) -> (r: Option<Order>)
    requires
        crate::assoc::keys_unique(crate::store::abs_fields(fields@)),
    ensures
        r is Some <==> fields_parseable(crate::store::abs_fields(fields@)),
        r is Some ==> order_matches_fields(
            r->0.status,
            r->0.goods@,
            crate::store::abs_fields(fields@),
        ),
{
    let ghost fs = crate::store::abs_fields(fields@);
    let n = fields.len();
    let status_f = status_field_name();
    let mut status: Option<Status> = None;
    let mut goods: Vec<crate::inventory::GoodReq> = Vec::new();
    let ghost mut good_ix: Seq<int> = Seq::empty();
    let mut j: usize = 0;
    while j < n
        invariant
            n == fields@.len(),
            fs == crate::store::abs_fields(fields@),
            crate::assoc::keys_unique(fs),
            status_f@ == status_field(),
            0 <= j <= n,
            status is Some <==> exists|t: int| 0 <= t < j && (#[trigger] fs[t]).0
                == status_field() && status_of_name(fs[t].1) is Some,
            status is Some ==> has_pair(fs, status_field(), status_name(status->0)),
            forall|t: int| 0 <= t < j ==> (#[trigger] fs[t]).0 == status_field()
                || good_of_field(fs[t].0, fs[t].1) is Some,
            good_ix.len() == goods@.len(),
            forall|a: int, b: int| 0 <= a < b < good_ix.len() ==> #[trigger] good_ix[a]
                < #[trigger] good_ix[b],
            forall|i: int| 0 <= i < goods@.len() ==> {
                let t = #[trigger] good_ix[i];
                &&& 0 <= t < j
                &&& fs[t].0 == good_field(goods@[i].id)
                &&& fs[t].1 == dec_of(goods@[i].count as nat)
            },
            forall|t: int| 0 <= t < j ==> (#[trigger] fs[t]).0 == status_field()
                || (exists|i: int| 0 <= i < goods@.len() && fs[t].0 == good_field(
                    (#[trigger] goods@[i]).id,
                )),
        decreases n - j,
    {
        if fields[j].0 == status_f {
            match parse_status(&fields[j].1) {
                None => {
                    proof {
                        assert(fs[j as int].0 == status_field());
                        if fields_parseable(fs) {
                            let t = choose|t: int|
                                0 <= t < fs.len() && (#[trigger] fs[t]).0 == status_field()
                                    && status_of_name(fs[t].1) is Some;
                            assert(t == j as int);
                        }
                    }
                    return None;
                },
                Some(st) => {
                    status = Some(st);
                    proof {
                        assert(fs[j as int] == (status_field(), status_name(st)));
                    }
                },
            }
        } else {
            match parse_good_field(&fields[j].0, &fields[j].1) {
                None => {
                    proof {
                        assert(good_of_field(fs[j as int].0, fs[j as int].1) is None);
                        assert(fs[j as int].0 != status_field());
                    }
                    return None;
                },
                Some(g) => {
                    let ghost goods_pre = goods@;
                    proof {
                        lemma_good_field_of(fs[j as int].0, fs[j as int].1);
                        good_ix = good_ix.push(j as int);
                    }
                    goods.push(g);
                    proof {
                        assert(goods@ == goods_pre.push(g));
                        assert(goods@[goods_pre.len() as int] == g);
                        assert(fs[j as int].0 == good_field(g.id));
                        assert forall|t: int|
                            0 <= t < j + 1 implies (#[trigger] fs[t]).0 == status_field() || (
                            exists|i: int|
                                0 <= i < goods@.len() && fs[t].0 == good_field(
                                    (#[trigger] goods@[i]).id,
                                )) by {
                            if t < j && fs[t].0 != status_field() {
                                let i = choose|i: int|
                                    0 <= i < goods_pre.len() && fs[t].0 == good_field(
                                        (#[trigger] goods_pre[i]).id,
                                    );
                                assert(goods@[i] == goods_pre[i]);
                                assert(fs[t].0 == good_field(goods@[i].id));
                            }
                            if t == j {
                                assert(fs[t].0 == good_field(
                                    goods@[goods_pre.len() as int].id,
                                ));
                            }
                        }
                    }
                },
            }
        }
        j = j + 1;
    }
    match status {
        None => {
            return None;
        },
        Some(st) => {
            proof {
                assert(fields_parseable(fs));
                assert forall|i: int| 0 <= i < goods@.len() implies has_pair(
                    fs,
                    good_field((#[trigger] goods@[i]).id),
                    dec_of(goods@[i].count as nat),
                ) by {
                    let t = good_ix[i];
                    assert(fs[t] == (good_field(goods@[i].id), dec_of(goods@[i].count as nat)));
                }
                // distinct field names force distinct good ids
                assert forall|a: int, b: int| 0 <= a < b < goods@.len() implies (
                #[trigger] goods@[a]).id != (#[trigger] goods@[b]).id by {
                    let ta = good_ix[a];
                    let tb = good_ix[b];
                    assert(ta < tb);
                    if goods@[a].id == goods@[b].id {
                        assert(fs[ta].0 == fs[tb].0);
                    }
                }
            }
            Some(Order { status: st, goods })
        },
    }
}

} // verus!
