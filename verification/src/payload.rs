//! Message-body grammar.
//!
//! A saga message body is UTF-8 JSON against one of a few fixed schemas: a
//! goods list for create and delete, a goods list with per-good operation
//! tags for update and for the warehouse's net adjustments, and a bare
//! billing id. The schemas are closed — a payload with an unknown or
//! repeated property, a missing one, or an out-of-range count is rejected
//! before any record is touched — so the accepted language is parsed here
//! directly, one positional function per production, each proved against its
//! specification twin.

use vstd::prelude::*;
use crate::inventory::{GoodAdj, GoodOp, GoodReq, GoodUpd};
use crate::num::{all_digits, dec_of, dec_val, is_digit, lemma_dec_val_nonneg, lemma_dec_val_prefix_grows, u64_to_dec};

verus! {

pub open spec fn fst<A, B>(p: (A, B)) -> A {
    p.0
}

pub open spec fn snd<A, B>(p: (A, B)) -> B {
    p.1
}

pub open spec fn is_ws(c: char) -> bool {
    c == ' ' || c == '\t' || c == '\n' || c == '\r'
}

/// Position of the first non-blank character at or after `i`.
pub open spec fn sp_ws(s: Seq<char>, i: int) -> int
    decreases s.len() - i,
{
    if 0 <= i < s.len() && is_ws(s[i]) {
        sp_ws(s, i + 1)
    } else {
        i
    }
}

pub proof fn lemma_ws_bounds(s: Seq<char>, i: int)
    requires
        0 <= i <= s.len(),
    ensures
        i <= sp_ws(s, i) <= s.len(),
    decreases s.len() - i,
{
    if i < s.len() && is_ws(s[i]) {
        lemma_ws_bounds(s, i + 1);
    }
}

/// The character a backslash escape stands for; the codepoint escape form is
/// not part of this dialect.
pub open spec fn sp_escape(c: char) -> Option<char> {
    if c == '"' {
        Some('"')
    } else if c == '\\' {
        Some('\\')
    } else if c == '/' {
        Some('/')
    } else if c == 'b' {
        Some('\u{0008}')
    } else if c == 'f' {
        Some('\u{000C}')
    } else if c == 'n' {
        Some('\n')
    } else if c == 'r' {
        Some('\r')
    } else if c == 't' {
        Some('\t')
    } else {
        None
    }
}

/// The rest of a quoted string, from just after the opening quote: the
/// decoded characters and the position after the closing quote.
pub open spec fn sp_str_body(s: Seq<char>, i: int) -> Option<(Seq<char>, int)>
    decreases s.len() - i,
{
    if !(0 <= i < s.len()) {
        None
    } else if s[i] == '"' {
        Some((Seq::empty(), i + 1))
    } else if s[i] == '\\' {
        if i + 1 < s.len() {
            match sp_escape(s[i + 1]) {
                None => None,
                Some(c) => match sp_str_body(s, i + 2) {
                    None => None,
                    Some((cs, j)) => Some((seq![c] + cs, j)),
                },
            }
        } else {
            None
        }
    } else if (s[i] as u32) < 32 {
        None
    } else {
        match sp_str_body(s, i + 1) {
            None => None,
            Some((cs, j)) => Some((seq![s[i]] + cs, j)),
        }
    }
}

pub proof fn lemma_str_body_bounds(s: Seq<char>, i: int)
    requires
        sp_str_body(s, i) is Some,
    ensures
        i < snd(sp_str_body(s, i)->0) <= s.len(),
    decreases s.len() - i,
{
    if 0 <= i < s.len() && s[i] != '"' {
        if s[i] == '\\' {
            lemma_str_body_bounds(s, i + 2);
        } else {
            lemma_str_body_bounds(s, i + 1);
        }
    }
}

/// A quoted string starting at `i`.
pub open spec fn sp_string(s: Seq<char>, i: int) -> Option<(Seq<char>, int)> {
    if 0 <= i < s.len() && s[i] == '"' {
        sp_str_body(s, i + 1)
    } else {
        None
    }
}

pub proof fn lemma_string_bounds(s: Seq<char>, i: int)
    requires
        sp_string(s, i) is Some,
    ensures
        i < snd(sp_string(s, i)->0) <= s.len(),
{
    lemma_str_body_bounds(s, i + 1);
}

/// Position of the first non-digit at or after `i`.
pub open spec fn sp_digits_end(s: Seq<char>, i: int) -> int
    decreases s.len() - i,
{
    if 0 <= i < s.len() && is_digit(s[i]) {
        sp_digits_end(s, i + 1)
    } else {
        i
    }
}

pub proof fn lemma_digits_end(s: Seq<char>, i: int)
    requires
        0 <= i <= s.len(),
    ensures
        i <= sp_digits_end(s, i) <= s.len(),
        all_digits(s.subrange(i, sp_digits_end(s, i))),
        sp_digits_end(s, i) < s.len() ==> !is_digit(s[sp_digits_end(s, i)]),
    decreases s.len() - i,
{
    let e = sp_digits_end(s, i);
    if i < s.len() && is_digit(s[i]) {
        lemma_digits_end(s, i + 1);
        assert(forall|t: int|
            0 <= t < e - i ==> #[trigger] s.subrange(i, e)[t] == if t == 0 {
                s[i]
            } else {
                s.subrange(i + 1, e)[t - 1]
            });
    } else {
        assert(s.subrange(i, i) =~= Seq::<char>::empty());
    }
}

/// An unsigned integer in strict form: a digit run without leading zeros,
/// not followed by a fraction or exponent, whose value stays in `u64` range.
pub open spec fn sp_uint(s: Seq<char>, i: int) -> Option<(int, int)> {
    let j = sp_digits_end(s, i);
    if !(0 <= i < s.len() && is_digit(s[i])) {
        None
    } else if s[i] == '0' && j > i + 1 {
        None
    } else if j < s.len() && (s[j] == '.' || s[j] == 'e' || s[j] == 'E') {
        None
    } else if dec_val(s.subrange(i, j)) > u64::MAX {
        None
    } else {
        Some((dec_val(s.subrange(i, j)), j))
    }
}

pub proof fn lemma_uint_bounds(s: Seq<char>, i: int)
    requires
        sp_uint(s, i) is Some,
    ensures
        i < snd(sp_uint(s, i)->0) <= s.len(),
        0 <= fst(sp_uint(s, i)->0) <= u64::MAX,
{
    lemma_digits_end(s, i);
    let j = sp_digits_end(s, i);
    assert(s.subrange(i, j)[0] == s[i]);
    lemma_dec_val_nonneg(s.subrange(i, j));
}

/// An optionally negated integer; the magnitude follows the strict unsigned
/// form.
pub open spec fn sp_int(s: Seq<char>, i: int) -> Option<(int, int)> {
    if 0 <= i < s.len() && s[i] == '-' {
        match sp_uint(s, i + 1) {
            None => None,
            Some((v, j)) => Some((-v, j)),
        }
    } else {
        sp_uint(s, i)
    }
}

pub proof fn lemma_int_bounds(s: Seq<char>, i: int)
    requires
        sp_int(s, i) is Some,
    ensures
        i < snd(sp_int(s, i)->0) <= s.len(),
        -(u64::MAX as int) <= fst(sp_int(s, i)->0) <= u64::MAX,
{
    if 0 <= i < s.len() && s[i] == '-' {
        lemma_uint_bounds(s, i + 1);
    } else {
        lemma_uint_bounds(s, i);
    }
}

/// Is the delimiter `c` at position `i`?
pub open spec fn sp_at(s: Seq<char>, i: int, c: char) -> bool {
    0 <= i < s.len() && s[i] == c
}

/// The per-good operation a tag string names.
pub open spec fn op_of_name(s: Seq<char>) -> Option<GoodOp> {
    if s == "add"@ {
        Some(GoodOp::Add)
    } else if s == "update"@ {
        Some(GoodOp::Update)
    } else if s == "delete"@ {
        Some(GoodOp::Delete)
    } else {
        None
    }
}

/// A goods item of the create and delete bodies: an object holding exactly
/// the properties `id` and `count`, in either order, with `count` at least
/// one.
pub open spec fn sp_item2(s: Seq<char>, i: int) -> Option<(GoodReq, int)> {
    if !sp_at(s, i, '{') {
        None
    } else {
        match sp_string(s, sp_ws(s, i + 1)) {
            None => None,
            Some((k1, a)) => {
                let b = sp_ws(s, a);
                if !sp_at(s, b, ':') {
                    None
                } else {
                    match sp_uint(s, sp_ws(s, b + 1)) {
                        None => None,
                        Some((v1, c)) => {
                            let d = sp_ws(s, c);
                            if !sp_at(s, d, ',') {
                                None
                            } else {
                                match sp_string(s, sp_ws(s, d + 1)) {
                                    None => None,
                                    Some((k2, e)) => {
                                        let f = sp_ws(s, e);
                                        if !sp_at(s, f, ':') {
                                            None
                                        } else {
                                            match sp_uint(s, sp_ws(s, f + 1)) {
                                                None => None,
                                                Some((v2, g)) => {
                                                    let h = sp_ws(s, g);
                                                    if !sp_at(s, h, '}') {
                                                        None
                                                    } else if k1 == "id"@ && k2 == "count"@
                                                        && v2 >= 1 {
                                                        Some(
                                                            (
                                                                GoodReq {
                                                                    id: v1 as u64,
                                                                    count: v2 as u64,
                                                                },
                                                                h + 1,
                                                            ),
                                                        )
                                                    } else if k1 == "count"@ && k2 == "id"@
                                                        && v1 >= 1 {
                                                        Some(
                                                            (
                                                                GoodReq {
                                                                    id: v2 as u64,
                                                                    count: v1 as u64,
                                                                },
                                                                h + 1,
                                                            ),
                                                        )
                                                    } else {
                                                        None
                                                    }
                                                },
                                            }
                                        }
                                    },
                                }
                            }
                        },
                    }
                }
            },
        }
    }
}

pub proof fn lemma_item2_bounds(s: Seq<char>, i: int)
    requires
        sp_item2(s, i) is Some,
    ensures
        i < snd(sp_item2(s, i)->0) <= s.len(),
{
    lemma_ws_bounds(s, i + 1);
    let p1 = sp_ws(s, i + 1);
    lemma_string_bounds(s, p1);
    let a = snd(sp_string(s, p1)->0);
    lemma_ws_bounds(s, a);
    let b = sp_ws(s, a);
    lemma_ws_bounds(s, b + 1);
    lemma_uint_bounds(s, sp_ws(s, b + 1));
    let c = snd(sp_uint(s, sp_ws(s, b + 1))->0);
    lemma_ws_bounds(s, c);
    let d = sp_ws(s, c);
    lemma_ws_bounds(s, d + 1);
    lemma_string_bounds(s, sp_ws(s, d + 1));
    let e = snd(sp_string(s, sp_ws(s, d + 1))->0);
    lemma_ws_bounds(s, e);
    let f = sp_ws(s, e);
    lemma_ws_bounds(s, f + 1);
    lemma_uint_bounds(s, sp_ws(s, f + 1));
    let g = snd(sp_uint(s, sp_ws(s, f + 1))->0);
    lemma_ws_bounds(s, g);
}

/// One parsed property of a three-key goods item.
#[derive(Clone, Copy, PartialEq, Eq, Structural, Debug)]
pub enum ItemPart {
    IdPart(u64),
    CountPart(i128),
    OpPart(GoodOp),
}

/// One `key: value` pair of a three-key goods item; the value form follows
/// the key.
pub open spec fn sp_pair3(s: Seq<char>, i: int) -> Option<(ItemPart, int)> {
    match sp_string(s, i) {
        None => None,
        Some((k, a)) => {
            let b = sp_ws(s, a);
            if !sp_at(s, b, ':') {
                None
            } else {
                let c = sp_ws(s, b + 1);
                if k == "operation"@ {
                    match sp_string(s, c) {
                        None => None,
                        Some((ov, d)) => match op_of_name(ov) {
                            None => None,
                            Some(op) => Some((ItemPart::OpPart(op), d)),
                        },
                    }
                } else if k == "id"@ {
                    match sp_uint(s, c) {
                        None => None,
                        Some((v, d)) => Some((ItemPart::IdPart(v as u64), d)),
                    }
                } else if k == "count"@ {
                    match sp_int(s, c) {
                        None => None,
                        Some((v, d)) => Some((ItemPart::CountPart(v as i128), d)),
                    }
                } else {
                    None
                }
            }
        },
    }
}

pub proof fn lemma_pair3_bounds(s: Seq<char>, i: int)
    requires
        sp_pair3(s, i) is Some,
    ensures
        i < snd(sp_pair3(s, i)->0) <= s.len(),
{
    lemma_string_bounds(s, i);
    let a = snd(sp_string(s, i)->0);
    lemma_ws_bounds(s, a);
    let b = sp_ws(s, a);
    lemma_ws_bounds(s, b + 1);
    let c = sp_ws(s, b + 1);
    if sp_string(s, c) is Some {
        lemma_string_bounds(s, c);
    }
    if sp_uint(s, c) is Some {
        lemma_uint_bounds(s, c);
    }
    if sp_int(s, c) is Some {
        lemma_int_bounds(s, c);
    }
}

/// The three properties of an item, each exactly once, in any order.
pub open spec fn sp_comb3(p1: ItemPart, p2: ItemPart, p3: ItemPart) -> Option<
    (u64, i128, GoodOp),
> {
    match (p1, p2, p3) {
        (ItemPart::IdPart(n), ItemPart::CountPart(c), ItemPart::OpPart(o)) => Some((n, c, o)),
        (ItemPart::IdPart(n), ItemPart::OpPart(o), ItemPart::CountPart(c)) => Some((n, c, o)),
        (ItemPart::CountPart(c), ItemPart::IdPart(n), ItemPart::OpPart(o)) => Some((n, c, o)),
        (ItemPart::CountPart(c), ItemPart::OpPart(o), ItemPart::IdPart(n)) => Some((n, c, o)),
        (ItemPart::OpPart(o), ItemPart::IdPart(n), ItemPart::CountPart(c)) => Some((n, c, o)),
        (ItemPart::OpPart(o), ItemPart::CountPart(c), ItemPart::IdPart(n)) => Some((n, c, o)),
        _ => None,
    }
}

/// A goods item of the update and adjustment bodies: an object holding
/// exactly the properties `id`, `count` and `operation`, in any order.
pub open spec fn sp_item3(s: Seq<char>, i: int) -> Option<((u64, i128, GoodOp), int)> {
    if !sp_at(s, i, '{') {
        None
    } else {
        match sp_pair3(s, sp_ws(s, i + 1)) {
            None => None,
            Some((p1, a)) => {
                let b = sp_ws(s, a);
                if !sp_at(s, b, ',') {
                    None
                } else {
                    match sp_pair3(s, sp_ws(s, b + 1)) {
                        None => None,
                        Some((p2, c)) => {
                            let d = sp_ws(s, c);
                            if !sp_at(s, d, ',') {
                                None
                            } else {
                                match sp_pair3(s, sp_ws(s, d + 1)) {
                                    None => None,
                                    Some((p3, e)) => {
                                        let f = sp_ws(s, e);
                                        if !sp_at(s, f, '}') {
                                            None
                                        } else {
                                            match sp_comb3(p1, p2, p3) {
                                                None => None,
                                                Some(t) => Some((t, f + 1)),
                                            }
                                        }
                                    },
                                }
                            }
                        },
                    }
                }
            },
        }
    }
}

pub proof fn lemma_item3_bounds(s: Seq<char>, i: int)
    requires
        sp_item3(s, i) is Some,
    ensures
        i < snd(sp_item3(s, i)->0) <= s.len(),
{
    lemma_ws_bounds(s, i + 1);
    lemma_pair3_bounds(s, sp_ws(s, i + 1));
    let a = snd(sp_pair3(s, sp_ws(s, i + 1))->0);
    lemma_ws_bounds(s, a);
    let b = sp_ws(s, a);
    lemma_ws_bounds(s, b + 1);
    lemma_pair3_bounds(s, sp_ws(s, b + 1));
    let c = snd(sp_pair3(s, sp_ws(s, b + 1))->0);
    lemma_ws_bounds(s, c);
    let d = sp_ws(s, c);
    lemma_ws_bounds(s, d + 1);
    lemma_pair3_bounds(s, sp_ws(s, d + 1));
    let e = snd(sp_pair3(s, sp_ws(s, d + 1))->0);
    lemma_ws_bounds(s, e);
}

/// The items of a create or delete body, from the first item to just past
/// the closing bracket.
pub open spec fn sp_items2(s: Seq<char>, i: int) -> Option<(Seq<GoodReq>, int)>
    decreases s.len() - i,
{
    match sp_item2(s, i) {
        None => None,
        Some((g, j)) => {
            let j2 = sp_ws(s, j);
            if sp_at(s, j2, ',') {
                proof {
                    lemma_item2_bounds(s, i);
                    lemma_ws_bounds(s, j);
                    lemma_ws_bounds(s, j2 + 1);
                }
                match sp_items2(s, sp_ws(s, j2 + 1)) {
                    None => None,
                    Some((gs, e)) => Some((seq![g] + gs, e)),
                }
            } else if sp_at(s, j2, ']') {
                Some((seq![g], j2 + 1))
            } else {
                None
            }
        },
    }
}

pub proof fn lemma_items2_bounds(s: Seq<char>, i: int)
    requires
        sp_items2(s, i) is Some,
    ensures
        i < snd(sp_items2(s, i)->0) <= s.len(),
    decreases s.len() - i,
{
    lemma_item2_bounds(s, i);
    let j = snd(sp_item2(s, i)->0);
    lemma_ws_bounds(s, j);
    let j2 = sp_ws(s, j);
    if sp_at(s, j2, ',') {
        lemma_ws_bounds(s, j2 + 1);
        lemma_items2_bounds(s, sp_ws(s, j2 + 1));
    }
}

/// The items of an update or adjustment body.
pub open spec fn sp_items3(s: Seq<char>, i: int) -> Option<(Seq<(u64, i128, GoodOp)>, int)>
    decreases s.len() - i,
{
    match sp_item3(s, i) {
        None => None,
        Some((g, j)) => {
            let j2 = sp_ws(s, j);
            if sp_at(s, j2, ',') {
                proof {
                    lemma_item3_bounds(s, i);
                    lemma_ws_bounds(s, j);
                    lemma_ws_bounds(s, j2 + 1);
                }
                match sp_items3(s, sp_ws(s, j2 + 1)) {
                    None => None,
                    Some((gs, e)) => Some((seq![g] + gs, e)),
                }
            } else if sp_at(s, j2, ']') {
                Some((seq![g], j2 + 1))
            } else {
                None
            }
        },
    }
}

pub proof fn lemma_items3_bounds(s: Seq<char>, i: int)
    requires
        sp_items3(s, i) is Some,
    ensures
        i < snd(sp_items3(s, i)->0) <= s.len(),
    decreases s.len() - i,
{
    lemma_item3_bounds(s, i);
    let j = snd(sp_item3(s, i)->0);
    lemma_ws_bounds(s, j);
    let j2 = sp_ws(s, j);
    if sp_at(s, j2, ',') {
        lemma_ws_bounds(s, j2 + 1);
        lemma_items3_bounds(s, sp_ws(s, j2 + 1));
    }
}

/// A whole body holding exactly the property `goods` with an item list,
/// ending with the input.
pub open spec fn sp_goods_body2(s: Seq<char>) -> Option<Seq<GoodReq>> {
    let i0 = sp_ws(s, 0);
    if !sp_at(s, i0, '{') {
        None
    } else {
        match sp_string(s, sp_ws(s, i0 + 1)) {
            None => None,
            Some((k, a)) => {
                let b = sp_ws(s, a);
                if !(k == "goods"@ && sp_at(s, b, ':')) {
                    None
                } else {
                    let c = sp_ws(s, b + 1);
                    if !sp_at(s, c, '[') {
                        None
                    } else {
                        match sp_items2(s, sp_ws(s, c + 1)) {
                            None => None,
                            Some((gs, d)) => {
                                let e = sp_ws(s, d);
                                if sp_at(s, e, '}') && sp_ws(s, e + 1) == s.len() {
                                    Some(gs)
                                } else {
                                    None
                                }
                            },
                        }
                    }
                }
            },
        }
    }
}

pub open spec fn sp_goods_body3(s: Seq<char>) -> Option<Seq<(u64, i128, GoodOp)>> {
    let i0 = sp_ws(s, 0);
    if !sp_at(s, i0, '{') {
        None
    } else {
        match sp_string(s, sp_ws(s, i0 + 1)) {
            None => None,
            Some((k, a)) => {
                let b = sp_ws(s, a);
                if !(k == "goods"@ && sp_at(s, b, ':')) {
                    None
                } else {
                    let c = sp_ws(s, b + 1);
                    if !sp_at(s, c, '[') {
                        None
                    } else {
                        match sp_items3(s, sp_ws(s, c + 1)) {
                            None => None,
                            Some((gs, d)) => {
                                let e = sp_ws(s, d);
                                if sp_at(s, e, '}') && sp_ws(s, e + 1) == s.len() {
                                    Some(gs)
                                } else {
                                    None
                                }
                            },
                        }
                    }
                }
            },
        }
    }
}

/// A billing body: exactly the property `id` with an unsigned integer.
pub open spec fn sp_billing_body(s: Seq<char>) -> Option<int> {
    let i0 = sp_ws(s, 0);
    if !sp_at(s, i0, '{') {
        None
    } else {
        match sp_string(s, sp_ws(s, i0 + 1)) {
            None => None,
            Some((k, a)) => {
                let b = sp_ws(s, a);
                if !(k == "id"@ && sp_at(s, b, ':')) {
                    None
                } else {
                    match sp_uint(s, sp_ws(s, b + 1)) {
                        None => None,
                        Some((v, c)) => {
                            let d = sp_ws(s, c);
                            if sp_at(s, d, '}') && sp_ws(s, d + 1) == s.len() {
                                Some(v)
                            } else {
                                None
                            }
                        },
                    }
                }
            },
        }
    }
}

/// The characters of `s`, one by one.
pub fn str_to_chars(s: &str) -> (v: Vec<char>)
    ensures
        v@ == s@,
{
    let n = s.unicode_len();
    let mut v: Vec<char> = Vec::new();
    let mut i: usize = 0;
    while i < n
        invariant
            n == s@.len(),
            0 <= i <= n,
            v@ =~= s@.take(i as int),
        decreases n - i,
    {
        v.push(s.get_char(i));
        i = i + 1;
    }
    proof {
        assert(s@.take(n as int) =~= s@);
    }
    v
}

/// Do the collected characters spell exactly this literal?
pub fn chars_eq_lit(v: &Vec<char>, lit: &str) -> (r: bool)
    ensures
        r == (v@ == lit@),
{
    let n = lit.unicode_len();
    if v.len() != n {
        return false;
    }
    let mut i: usize = 0;
    while i < n
        invariant
            n == lit@.len(),
            v@.len() == n,
            0 <= i <= n,
            forall|t: int| 0 <= t < i ==> v@[t] == lit@[t],
        decreases n - i,
    {
        if v[i] != lit.get_char(i) {
            return false;
        }
        i = i + 1;
    }
    proof {
        assert(v@ =~= lit@);
    }
    true
}

/// Skips blanks; the executable form of `sp_ws`.
pub(crate) fn ws(v: &Vec<char>, i: usize) -> (r: usize)
    requires
        i <= v@.len(),
    ensures
        r == sp_ws(v@, i as int),
        i <= r <= v@.len(),
{
    let n = v.len();
    let mut j = i;
    while j < n && (v[j] == ' ' || v[j] == '\t' || v[j] == '\n' || v[j] == '\r')
        invariant
            n == v@.len(),
            i <= j <= n,
            sp_ws(v@, i as int) == sp_ws(v@, j as int),
        decreases n - j,
    {
        j = j + 1;
    }
    j
}

/// Parses a quoted string at `i`; the executable form of `sp_string`.
fn parse_string(v: &Vec<char>, i: usize) -> (r: Option<(Vec<char>, usize)>)
    requires
        i <= v@.len(),
    ensures
        r is Some <==> sp_string(v@, i as int) is Some,
        r is Some ==> {
            &&& fst(r->0)@ == fst(sp_string(v@, i as int)->0)
            &&& snd(r->0) as int == snd(sp_string(v@, i as int)->0)
            &&& i < snd(r->0) <= v@.len()
        },
{
    let n = v.len();
    if !(i < n && v[i] == '"') {
        return None;
    }
    let mut acc: Vec<char> = Vec::new();
    let mut j: usize = i + 1;
    loop
        invariant
            n == v@.len(),
            i < n && v@[i as int] == '"',
            i + 1 <= j <= n,
            sp_str_body(v@, i as int + 1) == match sp_str_body(v@, j as int) {
                None => None::<(Seq<char>, int)>,
                Some((cs, e)) => Some((acc@ + cs, e)),
            },
        decreases n - j,
    {
        if j >= n {
            return None;
        }
        let c = v[j];
        if c == '"' {
            proof {
                assert(sp_str_body(v@, j as int) == Some((Seq::<char>::empty(), j as int + 1)));
                assert(acc@ + Seq::<char>::empty() =~= acc@);
                assert(sp_str_body(v@, i as int + 1) == Some((acc@, j as int + 1)));
                assert(sp_string(v@, i as int) == Some((acc@, j as int + 1)));
            }
            return Some((acc, j + 1));
        } else if c == '\\' {
            if j + 1 >= n {
                return None;
            }
            let e = v[j + 1];
            let dec = if e == '"' {
                Some('"')
            } else if e == '\\' {
                Some('\\')
            } else if e == '/' {
                Some('/')
            } else if e == 'b' {
                Some('\u{0008}')
            } else if e == 'f' {
                Some('\u{000C}')
            } else if e == 'n' {
                Some('\n')
            } else if e == 'r' {
                Some('\r')
            } else if e == 't' {
                Some('\t')
            } else {
                None
            };
            match dec {
                None => {
                    return None;
                },
                Some(d) => {
                    proof {
                        if sp_str_body(v@, j as int + 2) is Some {
                            let (cs, _) = sp_str_body(v@, j as int + 2)->0;
                            assert(acc@ + (seq![d] + cs) =~= acc@.push(d) + cs);
                        }
                    }
                    acc.push(d);
                    j = j + 2;
                },
            }
        } else if (c as u32) < 32 {
            return None;
        } else {
            proof {
                if sp_str_body(v@, j as int + 1) is Some {
                    let (cs, _) = sp_str_body(v@, j as int + 1)->0;
                    assert(acc@ + (seq![c] + cs) =~= acc@.push(c) + cs);
                }
            }
            acc.push(c);
            j = j + 1;
        }
    }
}

/// Parses a strict unsigned integer at `i`; the executable form of
/// `sp_uint`.
#[verifier::rlimit(50)]
pub(crate) fn parse_uint(v: &Vec<char>, i: usize) -> (r: Option<(u64, usize)>)
    requires
        i <= v@.len(),
    ensures
        r is Some <==> sp_uint(v@, i as int) is Some,
        r is Some ==> {
            &&& fst(r->0) as int == fst(sp_uint(v@, i as int)->0)
            &&& snd(r->0) as int == snd(sp_uint(v@, i as int)->0)
            &&& i < snd(r->0) <= v@.len()
        },
{
    let n = v.len();
    if !(i < n && '0' <= v[i] && v[i] <= '9') {
        return None;
    }
    // find the end of the digit run
    let mut j: usize = i;
    while j < n && '0' <= v[j] && v[j] <= '9'
        invariant
            n == v@.len(),
            i <= j <= n,
            i < n && is_digit(v@[i as int]),
            sp_digits_end(v@, i as int) == sp_digits_end(v@, j as int),
        decreases n - j,
    {
        j = j + 1;
    }
    proof {
        assert(j as int == sp_digits_end(v@, i as int));
        lemma_digits_end(v@, i as int);
    }
    if v[i] == '0' && j > i + 1 {
        return None;
    }
    if j < n && (v[j] == '.' || v[j] == 'e' || v[j] == 'E') {
        return None;
    }
    // evaluate the run
    let ghost run = v@.subrange(i as int, j as int);
    let mut acc: u64 = 0;
    let mut t: usize = i;
    while t < j
        invariant
            n == v@.len(),
            i <= t <= j <= n,
            i < n && is_digit(v@[i as int]),
            j as int == sp_digits_end(v@, i as int),
            !(v@[i as int] == '0' && j > i + 1),
            j < n ==> !(v@[j as int] == '.' || v@[j as int] == 'e' || v@[j as int] == 'E'),
            all_digits(run),
            run == v@.subrange(i as int, j as int),
            run.len() == j - i,
            forall|u: int| i <= u < j ==> run[u - i] == v@[u],
            acc as int == dec_val(run.take(t - i)),
        decreases j - t,
    {
        let c = v[t];
        let d: u64 = (c as u32 as u64) - ('0' as u32 as u64);
        proof {
            assert(run[t - i] == c);
            assert(is_digit(c));
            assert(run.take(t - i + 1).drop_last() =~= run.take(t - i));
            assert(run.take(t - i + 1).last() == c);
        }
        if acc > (u64::MAX - d) / 10 {
            proof {
                lemma_dec_val_prefix_grows(run, t - i + 1);
                assert(dec_val(run.take(t - i + 1)) == acc * 10 + d);
                assert(acc * 10 + d > u64::MAX) by (nonlinear_arith)
                    requires
                        0 <= d <= 9,
                        acc > (u64::MAX - d) / 10,
                ;
                assert(run.take(run.len() as int) =~= run);
            }
            return None;
        }
        proof {
            assert(acc * 10 + d <= u64::MAX) by (nonlinear_arith)
                requires
                    0 <= d <= 9,
                    0 <= acc <= (u64::MAX - d) / 10,
            ;
        }
        acc = acc * 10 + d;
        t = t + 1;
    }
    proof {
        assert(run.take(run.len() as int) =~= run);
        lemma_dec_val_nonneg(run);
    }
    Some((acc, j))
}

/// Parses an optionally negated strict integer at `i`; the executable form
/// of `sp_int`.
fn parse_int(v: &Vec<char>, i: usize) -> (r: Option<(i128, usize)>)
    requires
        i <= v@.len(),
    ensures
        r is Some <==> sp_int(v@, i as int) is Some,
        r is Some ==> {
            &&& fst(r->0) as int == fst(sp_int(v@, i as int)->0)
            &&& snd(r->0) as int == snd(sp_int(v@, i as int)->0)
            &&& i < snd(r->0) <= v@.len()
        },
{
    let n = v.len();
    if i < n && v[i] == '-' {
        match parse_uint(v, i + 1) {
            None => None,
            Some((m, j)) => Some((-(m as i128), j)),
        }
    } else {
        match parse_uint(v, i) {
            None => None,
            Some((m, j)) => Some((m as i128, j)),
        }
    }
}

/// Parses one two-key goods item; the executable form of `sp_item2`.
#[verifier::rlimit(50)]
fn parse_item2(v: &Vec<char>, i: usize) -> (r: Option<(GoodReq, usize)>)
    requires
        i <= v@.len(),
    ensures
        r is Some <==> sp_item2(v@, i as int) is Some,
        r is Some ==> {
            &&& fst(r->0) == fst(sp_item2(v@, i as int)->0)
            &&& snd(r->0) as int == snd(sp_item2(v@, i as int)->0)
            &&& i < snd(r->0) <= v@.len()
        },
{
    let n = v.len();
    if !(i < n && v[i] == '{') {
        return None;
    }
    let (k1, a) = match parse_string(v, ws(v, i + 1)) {
        None => {
            return None;
        },
        Some(p) => p,
    };
    let b = ws(v, a);
    if !(b < n && v[b] == ':') {
        return None;
    }
    let (v1, c) = match parse_uint(v, ws(v, b + 1)) {
        None => {
            return None;
        },
        Some(p) => p,
    };
    let d = ws(v, c);
    if !(d < n && v[d] == ',') {
        return None;
    }
    let (k2, e) = match parse_string(v, ws(v, d + 1)) {
        None => {
            return None;
        },
        Some(p) => p,
    };
    let f = ws(v, e);
    if !(f < n && v[f] == ':') {
        return None;
    }
    let (v2, g) = match parse_uint(v, ws(v, f + 1)) {
        None => {
            return None;
        },
        Some(p) => p,
    };
    let h = ws(v, g);
    if !(h < n && v[h] == '}') {
        return None;
    }
    if chars_eq_lit(&k1, "id") && chars_eq_lit(&k2, "count") && v2 >= 1 {
        Some((GoodReq { id: v1, count: v2 }, h + 1))
    } else if chars_eq_lit(&k1, "count") && chars_eq_lit(&k2, "id") && v1 >= 1 {
        Some((GoodReq { id: v2, count: v1 }, h + 1))
    } else {
        None
    }
}

/// Parses one `key: value` pair of a three-key item; the executable form of
/// `sp_pair3`.
#[verifier::rlimit(50)]
fn parse_pair3(v: &Vec<char>, i: usize) -> (r: Option<(ItemPart, usize)>)
    requires
        i <= v@.len(),
    ensures
        r is Some <==> sp_pair3(v@, i as int) is Some,
        r is Some ==> {
            &&& fst(r->0) == fst(sp_pair3(v@, i as int)->0)
            &&& snd(r->0) as int == snd(sp_pair3(v@, i as int)->0)
            &&& i < snd(r->0) <= v@.len()
        },
{
    let n = v.len();
    let (k, a) = match parse_string(v, i) {
        None => {
            return None;
        },
        Some(p) => p,
    };
    let b = ws(v, a);
    if !(b < n && v[b] == ':') {
        return None;
    }
    let c = ws(v, b + 1);
    if chars_eq_lit(&k, "operation") {
        let (ov, d) = match parse_string(v, c) {
            None => {
                return None;
            },
            Some(p) => p,
        };
        if chars_eq_lit(&ov, "add") {
            Some((ItemPart::OpPart(GoodOp::Add), d))
        } else if chars_eq_lit(&ov, "update") {
            Some((ItemPart::OpPart(GoodOp::Update), d))
        } else if chars_eq_lit(&ov, "delete") {
            Some((ItemPart::OpPart(GoodOp::Delete), d))
        } else {
            return None;
        }
    } else if chars_eq_lit(&k, "id") {
        match parse_uint(v, c) {
            None => None,
            Some((n0, d)) => Some((ItemPart::IdPart(n0), d)),
        }
    } else if chars_eq_lit(&k, "count") {
        match parse_int(v, c) {
            None => None,
            Some((n0, d)) => Some((ItemPart::CountPart(n0), d)),
        }
    } else {
        None
    }
}

/// Parses one three-key goods item; the executable form of `sp_item3`.
#[verifier::rlimit(50)]
fn parse_item3(v: &Vec<char>, i: usize) -> (r: Option<((u64, i128, GoodOp), usize)>)
    requires
        i <= v@.len(),
    ensures
        r is Some <==> sp_item3(v@, i as int) is Some,
        r is Some ==> {
            &&& fst(r->0) == fst(sp_item3(v@, i as int)->0)
            &&& snd(r->0) as int == snd(sp_item3(v@, i as int)->0)
            &&& i < snd(r->0) <= v@.len()
        },
{
    let n = v.len();
    if !(i < n && v[i] == '{') {
        return None;
    }
    let (p1, a) = match parse_pair3(v, ws(v, i + 1)) {
        None => {
            return None;
        },
        Some(p) => p,
    };
    let b = ws(v, a);
    if !(b < n && v[b] == ',') {
        return None;
    }
    let (p2, c) = match parse_pair3(v, ws(v, b + 1)) {
        None => {
            return None;
        },
        Some(p) => p,
    };
    let d = ws(v, c);
    if !(d < n && v[d] == ',') {
        return None;
    }
    let (p3, e) = match parse_pair3(v, ws(v, d + 1)) {
        None => {
            return None;
        },
        Some(p) => p,
    };
    let f = ws(v, e);
    if !(f < n && v[f] == '}') {
        return None;
    }
    let t = match (p1, p2, p3) {
        (ItemPart::IdPart(n0), ItemPart::CountPart(c0), ItemPart::OpPart(o0)) => (n0, c0, o0),
        (ItemPart::IdPart(n0), ItemPart::OpPart(o0), ItemPart::CountPart(c0)) => (n0, c0, o0),
        (ItemPart::CountPart(c0), ItemPart::IdPart(n0), ItemPart::OpPart(o0)) => (n0, c0, o0),
        (ItemPart::CountPart(c0), ItemPart::OpPart(o0), ItemPart::IdPart(n0)) => (n0, c0, o0),
        (ItemPart::OpPart(o0), ItemPart::IdPart(n0), ItemPart::CountPart(c0)) => (n0, c0, o0),
        (ItemPart::OpPart(o0), ItemPart::CountPart(c0), ItemPart::IdPart(n0)) => (n0, c0, o0),
        _ => {
            return None;
        },
    };
    Some((t, f + 1))
}

/// Parses the item list of a create or delete body; the executable form of
/// `sp_items2`.
fn parse_items2(v: &Vec<char>, i: usize) -> (r: Option<(Vec<GoodReq>, usize)>)
    requires
        i <= v@.len(),
    ensures
        r is Some <==> sp_items2(v@, i as int) is Some,
        r is Some ==> {
            &&& fst(r->0)@ == fst(sp_items2(v@, i as int)->0)
            &&& snd(r->0) as int == snd(sp_items2(v@, i as int)->0)
            &&& i < snd(r->0) <= v@.len()
        },
{
    let n = v.len();
    let mut acc: Vec<GoodReq> = Vec::new();
    let mut j: usize = i;
    loop
        invariant
            n == v@.len(),
            i <= j <= n,
            sp_items2(v@, i as int) == match sp_items2(v@, j as int) {
                None => None::<(Seq<GoodReq>, int)>,
                Some((gs, e)) => Some((acc@ + gs, e)),
            },
        decreases n - j,
    {
        let (g, j1) = match parse_item2(v, j) {
            None => {
                return None;
            },
            Some(p) => p,
        };
        let j2 = ws(v, j1);
        if j2 < n && v[j2] == ',' {
            let j3 = ws(v, j2 + 1);
            proof {
                if sp_items2(v@, j3 as int) is Some {
                    let (gs, _) = sp_items2(v@, j3 as int)->0;
                    assert(acc@ + (seq![g] + gs) =~= acc@.push(g) + gs);
                }
            }
            acc.push(g);
            j = j3;
        } else if j2 < n && v[j2] == ']' {
            proof {
                assert(acc@ + seq![g] =~= acc@.push(g));
            }
            acc.push(g);
            return Some((acc, j2 + 1));
        } else {
            return None;
        }
    }
}

/// Parses the item list of an update or adjustment body; the executable
/// form of `sp_items3`.
fn parse_items3(v: &Vec<char>, i: usize) -> (r: Option<(Vec<(u64, i128, GoodOp)>, usize)>)
    requires
        i <= v@.len(),
    ensures
        r is Some <==> sp_items3(v@, i as int) is Some,
        r is Some ==> {
            &&& fst(r->0)@ == fst(sp_items3(v@, i as int)->0)
            &&& snd(r->0) as int == snd(sp_items3(v@, i as int)->0)
            &&& i < snd(r->0) <= v@.len()
        },
{
    let n = v.len();
    let mut acc: Vec<(u64, i128, GoodOp)> = Vec::new();
    let mut j: usize = i;
    loop
        invariant
            n == v@.len(),
            i <= j <= n,
            sp_items3(v@, i as int) == match sp_items3(v@, j as int) {
                None => None::<(Seq<(u64, i128, GoodOp)>, int)>,
                Some((gs, e)) => Some((acc@ + gs, e)),
            },
        decreases n - j,
    {
        let (g, j1) = match parse_item3(v, j) {
            None => {
                return None;
            },
            Some(p) => p,
        };
        let j2 = ws(v, j1);
        if j2 < n && v[j2] == ',' {
            let j3 = ws(v, j2 + 1);
            proof {
                if sp_items3(v@, j3 as int) is Some {
                    let (gs, _) = sp_items3(v@, j3 as int)->0;
                    assert(acc@ + (seq![g] + gs) =~= acc@.push(g) + gs);
                }
            }
            acc.push(g);
            j = j3;
        } else if j2 < n && v[j2] == ']' {
            proof {
                assert(acc@ + seq![g] =~= acc@.push(g));
            }
            acc.push(g);
            return Some((acc, j2 + 1));
        } else {
            return None;
        }
    }
}

pub open spec fn tuple_ids_distinct(gs: Seq<(u64, i128, GoodOp)>) -> bool {
    forall|i: int, j: int| 0 <= i < j < gs.len() ==> fst3(#[trigger] gs[i]) != fst3(
        #[trigger] gs[j],
    )
}

pub open spec fn fst3(t: (u64, i128, GoodOp)) -> u64 {
    t.0
}

/// A valid create or delete body: the goods list, with pairwise-distinct
/// ids — the data model keys an order's goods by id.
pub open spec fn create_goods(s: Seq<char>) -> Option<Seq<GoodReq>> {
    match sp_goods_body2(s) {
        None => None,
        Some(gs) => if crate::inventory::distinct_req_ids(gs) {
            Some(gs)
        } else {
            None
        },
    }
}

pub open spec fn upd_of(t: (u64, i128, GoodOp)) -> GoodUpd {
    GoodUpd { id: t.0, count: t.1 as u64, op: t.2 }
}

pub open spec fn adj_of(t: (u64, i128, GoodOp)) -> GoodAdj {
    GoodAdj { id: t.0, delta: t.1 as i64, op: t.2 }
}

/// A valid update body: every count at least one and within machine range,
/// ids pairwise distinct.
pub open spec fn update_goods(s: Seq<char>) -> Option<Seq<GoodUpd>> {
    match sp_goods_body3(s) {
        None => None,
        Some(gs) => if tuple_ids_distinct(gs) && (forall|i: int|
            0 <= i < gs.len() ==> 1 <= (#[trigger] gs[i]).1 <= u64::MAX) {
            Some(gs.map_values(|t: (u64, i128, GoodOp)| upd_of(t)))
        } else {
            None
        },
    }
}

/// A valid adjustment body: every delta within the signed machine range,
/// ids pairwise distinct.
pub open spec fn adjust_goods(s: Seq<char>) -> Option<Seq<GoodAdj>> {
    match sp_goods_body3(s) {
        None => None,
        Some(gs) => if tuple_ids_distinct(gs) && (forall|i: int|
            0 <= i < gs.len() ==> i64::MIN <= (#[trigger] gs[i]).1 <= i64::MAX) {
            Some(gs.map_values(|t: (u64, i128, GoodOp)| adj_of(t)))
        } else {
            None
        },
    }
}

/// A valid billing body: the order number it bills.
pub open spec fn billing_id(s: Seq<char>) -> Option<int> {
    sp_billing_body(s)
}

fn req_ids_distinct(gs: &Vec<GoodReq>) -> (r: bool)
    ensures
        r == crate::inventory::distinct_req_ids(gs@),
{
    let n = gs.len();
    let mut i: usize = 0;
    while i < n
        invariant
            n == gs@.len(),
            0 <= i <= n,
            forall|a: int, b: int| 0 <= a < b < n && a < i ==> (#[trigger] gs@[a]).id != (
            #[trigger] gs@[b]).id,
        decreases n - i,
    {
        let mut j: usize = i + 1;
        while j < n
            invariant
                n == gs@.len(),
                0 <= i < j <= n,
                forall|b: int| i < b < j ==> (#[trigger] gs@[b]).id != gs@[i as int].id,
            decreases n - j,
        {
            if gs[j].id == gs[i].id {
                return false;
            }
            j = j + 1;
        }
        i = i + 1;
    }
    true
}

fn tuple_ids_distinct_exec(gs: &Vec<(u64, i128, GoodOp)>) -> (r: bool)
    ensures
        r == tuple_ids_distinct(gs@),
{
    let n = gs.len();
    let mut i: usize = 0;
    while i < n
        invariant
            n == gs@.len(),
            0 <= i <= n,
            forall|a: int, b: int| 0 <= a < b < n && a < i ==> fst3(#[trigger] gs@[a]) != fst3(
            #[trigger] gs@[b]),
        decreases n - i,
    {
        let mut j: usize = i + 1;
        while j < n
            invariant
                n == gs@.len(),
                0 <= i < j <= n,
                forall|b: int| i < b < j ==> fst3(#[trigger] gs@[b]) != fst3(gs@[i as int]),
            decreases n - j,
        {
            if gs[j].0 == gs[i].0 {
                return false;
            }
            j = j + 1;
        }
        i = i + 1;
    }
    true
}

/// Parses the item list of a goods body shared by the two body shapes.
#[verifier::rlimit(50)]
fn parse_goods_frame2(v: &Vec<char>) -> (r: Option<Vec<GoodReq>>)
    ensures
        r is Some <==> sp_goods_body2(v@) is Some,
        r is Some ==> r->0@ == sp_goods_body2(v@)->0,
{
    let n = v.len();
    let i0 = ws(v, 0);
    if !(i0 < n && v[i0] == '{') {
        return None;
    }
    let (k, a) = match parse_string(v, ws(v, i0 + 1)) {
        None => {
            return None;
        },
        Some(p) => p,
    };
    let b = ws(v, a);
    if !(chars_eq_lit(&k, "goods") && b < n && v[b] == ':') {
        return None;
    }
    let c = ws(v, b + 1);
    if !(c < n && v[c] == '[') {
        return None;
    }
    let (gs, d) = match parse_items2(v, ws(v, c + 1)) {
        None => {
            return None;
        },
        Some(p) => p,
    };
    let e = ws(v, d);
    if e < n && v[e] == '}' && ws(v, e + 1) == n {
        Some(gs)
    } else {
        None
    }
}

#[verifier::rlimit(50)]
fn parse_goods_frame3(v: &Vec<char>) -> (r: Option<Vec<(u64, i128, GoodOp)>>)
    ensures
        r is Some <==> sp_goods_body3(v@) is Some,
        r is Some ==> r->0@ == sp_goods_body3(v@)->0,
{
    let n = v.len();
    let i0 = ws(v, 0);
    if !(i0 < n && v[i0] == '{') {
        return None;
    }
    let (k, a) = match parse_string(v, ws(v, i0 + 1)) {
        None => {
            return None;
        },
        Some(p) => p,
    };
    let b = ws(v, a);
    if !(chars_eq_lit(&k, "goods") && b < n && v[b] == ':') {
        return None;
    }
    let c = ws(v, b + 1);
    if !(c < n && v[c] == '[') {
        return None;
    }
    let (gs, d) = match parse_items3(v, ws(v, c + 1)) {
        None => {
            return None;
        },
        Some(p) => p,
    };
    let e = ws(v, d);
    if e < n && v[e] == '}' && ws(v, e + 1) == n {
        Some(gs)
    } else {
        None
    }
}

/// Validates a create or delete body and hands out its goods list.
pub fn parse_create_payload(payload: &str) -> (r: Option<Vec<GoodReq>>)
    ensures
        r is Some <==> create_goods(payload@) is Some,
        r is Some ==> r->0@ == create_goods(payload@)->0,
{
    let v = str_to_chars(payload);
    match parse_goods_frame2(&v) {
        None => None,
        Some(gs) => {
            if req_ids_distinct(&gs) {
                Some(gs)
            } else {
                None
            }
        },
    }
}

/// Validates an update body and hands out its goods list.
pub fn parse_update_payload(payload: &str) -> (r: Option<Vec<GoodUpd>>)
    ensures
        r is Some <==> update_goods(payload@) is Some,
        r is Some ==> r->0@ == update_goods(payload@)->0,
{
    let v = str_to_chars(payload);
    let gs = match parse_goods_frame3(&v) {
        None => {
            return None;
        },
        Some(gs) => gs,
    };
    if !tuple_ids_distinct_exec(&gs) {
        return None;
    }
    let n = gs.len();
    let mut out: Vec<GoodUpd> = Vec::new();
    let mut i: usize = 0;
    while i < n
        invariant
            n == gs@.len(),
            0 <= i <= n,
            sp_goods_body3(payload@) == Some(gs@),
            tuple_ids_distinct(gs@),
            forall|t: int| 0 <= t < i ==> 1 <= (#[trigger] gs@[t]).1 <= u64::MAX,
            out@ =~= gs@.take(i as int).map_values(|t: (u64, i128, GoodOp)| upd_of(t)),
        decreases n - i,
    {
        let (id, c, op) = gs[i];
        if !(1 <= c && c <= u64::MAX as i128) {
            proof {
                assert(!(1 <= (gs@[i as int]).1 <= u64::MAX));
            }
            return None;
        }
        out.push(GoodUpd { id, count: c as u64, op });
        proof {
            assert(gs@.take(i as int + 1).drop_last() =~= gs@.take(i as int));
            assert(gs@.take(i as int + 1).map_values(|t: (u64, i128, GoodOp)| upd_of(t))
                =~= gs@.take(i as int).map_values(|t: (u64, i128, GoodOp)| upd_of(t)).push(
                upd_of(gs@[i as int]),
            ));
        }
        i = i + 1;
    }
    proof {
        assert(gs@.take(n as int) =~= gs@);
    }
    Some(out)
}

/// Validates an adjustment body and hands out its deltas.
pub fn parse_adjust_payload(payload: &str) -> (r: Option<Vec<GoodAdj>>)
    ensures
        r is Some <==> adjust_goods(payload@) is Some,
        r is Some ==> r->0@ == adjust_goods(payload@)->0,
{
    let v = str_to_chars(payload);
    let gs = match parse_goods_frame3(&v) {
        None => {
            return None;
        },
        Some(gs) => gs,
    };
    if !tuple_ids_distinct_exec(&gs) {
        return None;
    }
    let n = gs.len();
    let mut out: Vec<GoodAdj> = Vec::new();
    let mut i: usize = 0;
    while i < n
        invariant
            n == gs@.len(),
            0 <= i <= n,
            sp_goods_body3(payload@) == Some(gs@),
            tuple_ids_distinct(gs@),
            forall|t: int| 0 <= t < i ==> i64::MIN <= (#[trigger] gs@[t]).1 <= i64::MAX,
            out@ =~= gs@.take(i as int).map_values(|t: (u64, i128, GoodOp)| adj_of(t)),
        decreases n - i,
    {
        let (id, c, op) = gs[i];
        if !(i64::MIN as i128 <= c && c <= i64::MAX as i128) {
            proof {
                assert(!(i64::MIN <= (gs@[i as int]).1 <= i64::MAX));
            }
            return None;
        }
        out.push(GoodAdj { id, delta: c as i64, op });
        proof {
            assert(gs@.take(i as int + 1).drop_last() =~= gs@.take(i as int));
            assert(gs@.take(i as int + 1).map_values(|t: (u64, i128, GoodOp)| adj_of(t))
                =~= gs@.take(i as int).map_values(|t: (u64, i128, GoodOp)| adj_of(t)).push(
                adj_of(gs@[i as int]),
            ));
        }
        i = i + 1;
    }
    proof {
        assert(gs@.take(n as int) =~= gs@);
    }
    Some(out)
}

/// Validates a billing body and hands out the order number.
pub fn parse_billing_payload(payload: &str) -> (r: Option<u64>)
    ensures
        r is Some <==> billing_id(payload@) is Some,
        r is Some ==> r->0 as int == billing_id(payload@)->0,
{
    let v = str_to_chars(payload);
    let n = v.len();
    let i0 = ws(&v, 0);
    if !(i0 < n && v[i0] == '{') {
        return None;
    }
    let (k, a) = match parse_string(&v, ws(&v, i0 + 1)) {
        None => {
            return None;
        },
        Some(p) => p,
    };
    let b = ws(&v, a);
    if !(chars_eq_lit(&k, "id") && b < n && v[b] == ':') {
        return None;
    }
    let (val, c) = match parse_uint(&v, ws(&v, b + 1)) {
        None => {
            return None;
        },
        Some(p) => p,
    };
    let d = ws(&v, c);
    if d < n && v[d] == '}' && ws(&v, d + 1) == n {
        Some(val)
    } else {
        None
    }
}

/// The decimal spelling of a signed value.
pub open spec fn sdec_of(v: int) -> Seq<char> {
    if v < 0 {
        seq!['-'] + dec_of((-v) as nat)
    } else {
        dec_of(v as nat)
    }
}

pub open spec fn op_name(op: GoodOp) -> Seq<char> {
    match op {
        GoodOp::Add => "add"@,
        GoodOp::Update => "update"@,
        GoodOp::Delete => "delete"@,
    }
}

pub open spec fn render_item2(g: GoodReq) -> Seq<char> {
    "{\"id\":"@ + dec_of(g.id as nat) + ",\"count\":"@ + dec_of(g.count as nat) + "}"@
}

pub open spec fn render_items2(gs: Seq<GoodReq>) -> Seq<char>
    decreases gs.len(),
{
    if gs.len() == 0 {
        Seq::empty()
    } else if gs.len() == 1 {
        render_item2(gs[0])
    } else {
        render_items2(gs.drop_last()) + ","@ + render_item2(gs.last())
    }
}

/// The body text a create or delete outcome carries downstream.
pub open spec fn goods_payload_text(gs: Seq<GoodReq>) -> Seq<char> {
    "{\"goods\":["@ + render_items2(gs) + "]}"@
}

pub open spec fn render_item3(g: GoodAdj) -> Seq<char> {
    "{\"id\":"@ + dec_of(g.id as nat) + ",\"count\":"@ + sdec_of(g.delta as int)
        + ",\"operation\":\""@ + op_name(g.op) + "\"}"@
}

pub open spec fn render_items3(gs: Seq<GoodAdj>) -> Seq<char>
    decreases gs.len(),
{
    if gs.len() == 0 {
        Seq::empty()
    } else if gs.len() == 1 {
        render_item3(gs[0])
    } else {
        render_items3(gs.drop_last()) + ","@ + render_item3(gs.last())
    }
}

/// The body text an update outcome carries downstream: the net deltas.
pub open spec fn adjust_payload_text(gs: Seq<GoodAdj>) -> Seq<char> {
    "{\"goods\":["@ + render_items3(gs) + "]}"@
}

fn i64_to_sdec(d: i64) -> (s: String)
    ensures
        s@ == sdec_of(d as int),
{
    if d >= 0 {
        u64_to_dec(d as u64)
    } else {
        let mag: u64 = if d == i64::MIN {
            9223372036854775808u64
        } else {
            (-d) as u64
        };
        let mut s = String::from_str("-");
        let digits = u64_to_dec(mag);
        s.append(digits.as_str());
        proof {
            reveal_strlit("-");
            assert(s@ =~= seq!['-'] + dec_of(mag as nat));
        }
        s
    }
}

fn append_item2(s: &mut String, g: GoodReq)
    ensures
        final(s)@ == old(s)@ + render_item2(g),
{
    s.append("{\"id\":");
    let idt = u64_to_dec(g.id);
    s.append(idt.as_str());
    s.append(",\"count\":");
    let ct = u64_to_dec(g.count);
    s.append(ct.as_str());
    s.append("}");
    proof {
        assert(s@ =~= old(s)@ + render_item2(g));
    }
}

fn append_item3(s: &mut String, g: GoodAdj)
    ensures
        final(s)@ == old(s)@ + render_item3(g),
{
    s.append("{\"id\":");
    let idt = u64_to_dec(g.id);
    s.append(idt.as_str());
    s.append(",\"count\":");
    let dt = i64_to_sdec(g.delta);
    s.append(dt.as_str());
    s.append(",\"operation\":\"");
    match g.op {
        GoodOp::Add => s.append("add"),
        GoodOp::Update => s.append("update"),
        GoodOp::Delete => s.append("delete"),
    }
    s.append("\"}");
    proof {
        assert(s@ =~= old(s)@ + render_item3(g));
    }
}

/// Renders a goods list as a create or delete body.
pub fn render_goods_payload(gs: &Vec<GoodReq>) -> (s: String)
    ensures
        s@ == goods_payload_text(gs@),
{
    let n = gs.len();
    let mut s = String::from_str("{\"goods\":[");
    let mut i: usize = 0;
    while i < n
        invariant
            n == gs@.len(),
            0 <= i <= n,
            s@ == "{\"goods\":["@ + render_items2(gs@.take(i as int)),
        decreases n - i,
    {
        if i > 0 {
            s.append(",");
        }
        append_item2(&mut s, gs[i]);
        proof {
            assert(gs@.take(i as int + 1).drop_last() =~= gs@.take(i as int));
            assert(gs@.take(i as int + 1).last() == gs@[i as int]);
            if i == 0 {
                assert(render_items2(gs@.take(1)) == render_item2(gs@[0]));
                assert(s@ =~= "{\"goods\":["@ + render_items2(gs@.take(1)));
            } else {
                assert(s@ =~= "{\"goods\":["@ + render_items2(gs@.take(i as int + 1)));
            }
        }
        i = i + 1;
    }
    s.append("]}");
    proof {
        assert(gs@.take(n as int) =~= gs@);
        assert(s@ =~= "{\"goods\":["@ + render_items2(gs@) + "]}"@);
    }
    s
}

/// Renders net deltas as an adjustment body.
pub fn render_adjust_payload(gs: &Vec<GoodAdj>) -> (s: String)
    ensures
        s@ == adjust_payload_text(gs@),
{
    let n = gs.len();
    let mut s = String::from_str("{\"goods\":[");
    let mut i: usize = 0;
    while i < n
        invariant
            n == gs@.len(),
            0 <= i <= n,
            s@ == "{\"goods\":["@ + render_items3(gs@.take(i as int)),
        decreases n - i,
    {
        if i > 0 {
            s.append(",");
        }
        append_item3(&mut s, gs[i]);
        proof {
            assert(gs@.take(i as int + 1).drop_last() =~= gs@.take(i as int));
            assert(gs@.take(i as int + 1).last() == gs@[i as int]);
            if i == 0 {
                assert(render_items3(gs@.take(1)) == render_item3(gs@[0]));
                assert(s@ =~= "{\"goods\":["@ + render_items3(gs@.take(1)));
            } else {
                assert(s@ =~= "{\"goods\":["@ + render_items3(gs@.take(i as int + 1)));
            }
        }
        i = i + 1;
    }
    s.append("]}");
    proof {
        assert(gs@.take(n as int) =~= gs@);
        assert(s@ =~= "{\"goods\":["@ + render_items3(gs@) + "]}"@);
    }
    s
}

} // verus!
