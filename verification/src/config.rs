//! Process configuration.
//!
//! A configuration file is a flat list of sections of `key = value` lines,
//! each value a quoted text or a number, with comment lines. Loading it is
//! outside the saga core — the file is read by the surrounding process —
//! but the text is parsed and checked here, against the grammar below, and
//! an incomplete or ill-formed configuration yields nothing rather than a
//! partial one.

use vstd::prelude::*;
use crate::num::is_digit;
use crate::payload::{fst, parse_uint, snd, sp_at, sp_uint, sp_ws, str_to_chars, ws};

verus! {

/// One configured value: quoted text, or a number.
pub enum CfgVal {
    Text(String),
    Num(u64),
}

/// The mathematical form of a configured value.
pub enum CfgV {
    TextV(Seq<char>),
    NumV(int),
}

pub open spec fn cfg_v(c: CfgVal) -> CfgV {
    match c {
        CfgVal::Text(s) => CfgV::TextV(s@),
        CfgVal::Num(n) => CfgV::NumV(n as int),
    }
}

pub open spec fn abs_entries(ts: Seq<(String, String, CfgVal)>) -> Seq<
    (Seq<char>, Seq<char>, CfgV),
> {
    ts.map_values(|t: (String, String, CfgVal)| (t.0@, t.1@, cfg_v(t.2)))
}

pub open spec fn is_ident_char(c: char) -> bool {
    ('a' <= c && c <= 'z') || ('A' <= c && c <= 'Z') || is_digit(c) || c == '_'
}

/// Position of the first non-identifier character at or after `i`.
pub open spec fn sp_ident_end(s: Seq<char>, i: int) -> int
    decreases s.len() - i,
{
    if 0 <= i < s.len() && is_ident_char(s[i]) {
        sp_ident_end(s, i + 1)
    } else {
        i
    }
}

pub proof fn lemma_ident_end(s: Seq<char>, i: int)
    requires
        0 <= i <= s.len(),
    ensures
        i <= sp_ident_end(s, i) <= s.len(),
    decreases s.len() - i,
{
    if i < s.len() && is_ident_char(s[i]) {
        lemma_ident_end(s, i + 1);
    }
}

/// Position just after the end of the current line.
pub open spec fn sp_line_end(s: Seq<char>, i: int) -> int
    decreases s.len() - i,
{
    if !(0 <= i < s.len()) {
        i
    } else if s[i] == '\n' {
        i + 1
    } else {
        sp_line_end(s, i + 1)
    }
}

pub proof fn lemma_line_end(s: Seq<char>, i: int)
    requires
        0 <= i <= s.len(),
    ensures
        i <= sp_line_end(s, i) <= s.len(),
        i < s.len() ==> i < sp_line_end(s, i),
    decreases s.len() - i,
{
    if i < s.len() && s[i] != '\n' {
        lemma_line_end(s, i + 1);
    }
}

/// A plain quoted value: the characters between the quotes, which hold no
/// escape, quote or control character.
pub open spec fn sp_quoted(s: Seq<char>, i: int) -> Option<(Seq<char>, int)>
    decreases s.len() - i,
{
    if !(0 <= i < s.len()) {
        None
    } else if s[i] == '"' {
        Some((Seq::empty(), i + 1))
    } else if s[i] == '\\' || (s[i] as u32) < 32 {
        None
    } else {
        match sp_quoted(s, i + 1) {
            None => None,
            Some((cs, j)) => Some((seq![s[i]] + cs, j)),
        }
    }
}

pub proof fn lemma_quoted_bounds(s: Seq<char>, i: int)
    requires
        sp_quoted(s, i) is Some,
    ensures
        i < snd(sp_quoted(s, i)->0) <= s.len(),
    decreases s.len() - i,
{
    if 0 <= i < s.len() && s[i] != '"' {
        lemma_quoted_bounds(s, i + 1);
    }
}

/// The value text between the quotes is the matching span of the input.
pub proof fn lemma_quoted_is_span(s: Seq<char>, i: int)
    requires
        sp_quoted(s, i) is Some,
    ensures
        fst(sp_quoted(s, i)->0) == s.subrange(i, snd(sp_quoted(s, i)->0) - 1),
    decreases s.len() - i,
{
    lemma_quoted_bounds(s, i);
    if s[i] == '"' {
        assert(s.subrange(i, i) =~= Seq::<char>::empty());
    } else {
        lemma_quoted_is_span(s, i + 1);
        lemma_quoted_bounds(s, i + 1);
        let j = snd(sp_quoted(s, i)->0);
        assert(seq![s[i]] + s.subrange(i + 1, j - 1) =~= s.subrange(i, j - 1));
    }
}

/// The configuration entries of the text from position `i`, inside section
/// `sec`: comment lines are skipped, a bracketed name switches the section,
/// and every other line binds one key.
pub open spec fn sp_entries(s: Seq<char>, i: int, sec: Seq<char>) -> Option<
    Seq<(Seq<char>, Seq<char>, CfgV)>,
>
    decreases s.len() - i,
{
    let j = sp_ws(s, i);
    if !(0 <= i <= s.len()) {
        None
    } else if j >= s.len() {
        Some(Seq::empty())
    } else if s[j] == '#' {
        proof {
            lemma_ws_bounds_cfg(s, i);
            lemma_line_end(s, j);
        }
        sp_entries(s, sp_line_end(s, j), sec)
    } else if s[j] == '[' {
        let e = sp_ident_end(s, j + 1);
        if e == j + 1 || !sp_at(s, e, ']') {
            None
        } else {
            proof {
                lemma_ws_bounds_cfg(s, i);
                lemma_ident_end(s, j + 1);
            }
            sp_entries(s, e + 1, s.subrange(j + 1, e))
        }
    } else {
        let e = sp_ident_end(s, j);
        if e == j {
            None
        } else {
            let k = s.subrange(j, e);
            let a = sp_ws(s, e);
            if !sp_at(s, a, '=') {
                None
            } else {
                let b = sp_ws(s, a + 1);
                if sp_at(s, b, '"') {
                    match sp_quoted(s, b + 1) {
                        None => None,
                        Some((txt, c)) => {
                            proof {
                                lemma_ws_bounds_cfg(s, i);
                                lemma_ident_end(s, j);
                                lemma_ws_bounds_cfg(s, e);
                                lemma_ws_bounds_cfg(s, a + 1);
                                lemma_quoted_bounds(s, b + 1);
                            }
                            match sp_entries(s, c, sec) {
                                None => None,
                                Some(ts) => Some(seq![(sec, k, CfgV::TextV(txt))] + ts),
                            }
                        },
                    }
                } else {
                    match sp_uint(s, b) {
                        None => None,
                        Some((v, c)) => {
                            proof {
                                lemma_ws_bounds_cfg(s, i);
                                lemma_ident_end(s, j);
                                lemma_ws_bounds_cfg(s, e);
                                lemma_ws_bounds_cfg(s, a + 1);
                                crate::payload::lemma_uint_bounds(s, b);
                            }
                            match sp_entries(s, c, sec) {
                                None => None,
                                Some(ts) => Some(seq![(sec, k, CfgV::NumV(v))] + ts),
                            }
                        },
                    }
                }
            }
        }
    }
}

pub proof fn lemma_ws_bounds_cfg(s: Seq<char>, i: int)
    requires
        0 <= i <= s.len(),
    ensures
        i <= sp_ws(s, i) <= s.len(),
{
    crate::payload::lemma_ws_bounds(s, i);
}

/// The value bound to a key in a section; the last binding wins.
pub open spec fn cfg_lookup(
    ts: Seq<(Seq<char>, Seq<char>, CfgV)>,
    sec: Seq<char>,
    key: Seq<char>,
) -> Option<CfgV>
    decreases ts.len(),
{
    if ts.len() == 0 {
        None
    } else if ts.last().0 == sec && ts.last().1 == key {
        Some(ts.last().2)
    } else {
        cfg_lookup(ts.drop_last(), sec, key)
    }
}

/// The text value of a key, if the whole file parses and the key is bound
/// to a text.
pub open spec fn cfg_text(s: Seq<char>, sec: Seq<char>, key: Seq<char>) -> Option<Seq<char>> {
    match sp_entries(s, 0, Seq::empty()) {
        None => None,
        Some(ts) => match cfg_lookup(ts, sec, key) {
            Some(CfgV::TextV(t)) => Some(t),
            _ => None,
        },
    }
}

/// The numeric value of a key, if the whole file parses and the key is
/// bound to a number.
pub open spec fn cfg_num(s: Seq<char>, sec: Seq<char>, key: Seq<char>) -> Option<int> {
    match sp_entries(s, 0, Seq::empty()) {
        None => None,
        Some(ts) => match cfg_lookup(ts, sec, key) {
            Some(CfgV::NumV(v)) => Some(v),
            _ => None,
        },
    }
}

fn ident_end(v: &Vec<char>, i: usize) -> (r: usize)
    requires
        i <= v@.len(),
    ensures
        r == sp_ident_end(v@, i as int),
        i <= r <= v@.len(),
{
    let n = v.len();
    let mut j = i;
    while j < n && (('a' <= v[j] && v[j] <= 'z') || ('A' <= v[j] && v[j] <= 'Z') || ('0' <= v[j]
        && v[j] <= '9') || v[j] == '_')
        invariant
            n == v@.len(),
            i <= j <= n,
            sp_ident_end(v@, i as int) == sp_ident_end(v@, j as int),
        decreases n - j,
    {
        j = j + 1;
    }
    j
}

fn line_end(v: &Vec<char>, i: usize) -> (r: usize)
    requires
        i <= v@.len(),
    ensures
        r == sp_line_end(v@, i as int),
        i <= r <= v@.len(),
        i < v@.len() ==> i < r,
{
    let n = v.len();
    let mut j = i;
    while j < n && v[j] != '\n'
        invariant
            n == v@.len(),
            i <= j <= n,
            sp_line_end(v@, i as int) == sp_line_end(v@, j as int),
        decreases n - j,
    {
        j = j + 1;
    }
    if j < n {
        j + 1
    } else {
        j
    }
}

/// Reads the plain quoted value opening just before position `i`.
fn parse_quoted(text: &str, v: &Vec<char>, i: usize) -> (r: Option<(String, usize)>)
    requires
        v@ == text@,
        i <= v@.len(),
    ensures
        r is Some <==> sp_quoted(v@, i as int) is Some,
        r is Some ==> {
            &&& fst(r->0)@ == fst(sp_quoted(v@, i as int)->0)
            &&& snd(r->0) as int == snd(sp_quoted(v@, i as int)->0)
            &&& i < snd(r->0) <= v@.len()
        },
{
    let n = v.len();
    let mut j = i;
    while j < n && v[j] != '"' && v[j] != '\\' && (v[j] as u32) >= 32
        invariant
            n == v@.len(),
            i <= j <= n,
            forall|t: int| i <= t < j ==> v@[t] != '"' && v@[t] != '\\' && (
            #[trigger] v@[t] as u32) >= 32,
        decreases n - j,
    {
        j = j + 1;
    }
    proof {
        lemma_quoted_prefix(v@, i as int, j as int);
    }
    if j < n && v[j] == '"' {
        let content = String::from_str(text.substring_char(i, j));
        proof {
            lemma_quoted_is_span(v@, i as int);
            lemma_quoted_bounds(v@, i as int);
        }
        Some((content, j + 1))
    } else {
        None
    }
}

/// A span of plain characters defers the quoted value to its end.
proof fn lemma_quoted_prefix(s: Seq<char>, i: int, j: int)
    requires
        0 <= i <= j <= s.len(),
        forall|t: int| i <= t < j ==> s[t] != '"' && s[t] != '\\' && (#[trigger] s[t] as u32)
            >= 32,
    ensures
        sp_quoted(s, i) is Some <==> sp_quoted(s, j) is Some,
        sp_quoted(s, i) is Some ==> {
            &&& snd(sp_quoted(s, i)->0) == snd(sp_quoted(s, j)->0)
            &&& fst(sp_quoted(s, i)->0) == s.subrange(i, j) + fst(sp_quoted(s, j)->0)
        },
    decreases j - i,
{
    if i == j {
        assert(s.subrange(i, i) =~= Seq::<char>::empty());
        if sp_quoted(s, i) is Some {
            assert(Seq::empty() + fst(sp_quoted(s, i)->0) =~= fst(sp_quoted(s, i)->0));
        }
    } else {
        lemma_quoted_prefix(s, i + 1, j);
        if sp_quoted(s, i + 1) is Some {
            assert(seq![s[i]] + (s.subrange(i + 1, j) + fst(sp_quoted(s, j)->0)) =~= s.subrange(
                i,
                j,
            ) + fst(sp_quoted(s, j)->0));
        }
    }
}

/// Parses a whole configuration text into its entries; the executable form
/// of `sp_entries` from the start of the text.
#[verifier::rlimit(80)]
fn parse_entries(text: &str) -> (r: Option<Vec<(String, String, CfgVal)>>)
    ensures
        r is Some <==> sp_entries(text@, 0, Seq::empty()) is Some,
        r is Some ==> abs_entries(r->0@) == sp_entries(text@, 0, Seq::empty())->0,
{
    let v = str_to_chars(text);
    let n = v.len();
    let mut acc: Vec<(String, String, CfgVal)> = Vec::new();
    let mut sec: String = String::new();
    let mut i: usize = 0;
    proof {
        assert(abs_entries(acc@) =~= Seq::<(Seq<char>, Seq<char>, CfgV)>::empty());
    }
    loop
        invariant
            n == v@.len(),
            v@ == text@,
            0 <= i <= n,
            sp_entries(v@, 0, Seq::empty()) == match sp_entries(v@, i as int, sec@) {
                None => None::<Seq<(Seq<char>, Seq<char>, CfgV)>>,
                Some(ts) => Some(abs_entries(acc@) + ts),
            },
        decreases n - i,
    {
        let j = ws(&v, i);
        if j >= n {
            proof {
                assert(abs_entries(acc@) + Seq::<(Seq<char>, Seq<char>, CfgV)>::empty()
                    =~= abs_entries(acc@));
            }
            return Some(acc);
        }
        if v[j] == '#' {
            i = line_end(&v, j);
        } else if v[j] == '[' {
            let e = ident_end(&v, j + 1);
            if e == j + 1 {
                return None;
            }
            if !(e < n && v[e] == ']') {
                return None;
            }
            sec = String::from_str(text.substring_char(j + 1, e));
            i = e + 1;
        } else {
            let e = ident_end(&v, j);
            if e == j {
                return None;
            }
            let key = String::from_str(text.substring_char(j, e));
            let a = ws(&v, e);
            if !(a < n && v[a] == '=') {
                return None;
            }
            let b = ws(&v, a + 1);
            if b < n && v[b] == '"' {
                let (val, c) = match parse_quoted(text, &v, b + 1) {
                    None => {
                        return None;
                    },
                    Some(p) => p,
                };
                let ghost t_abs = (sec@, key@, CfgV::TextV(val@));
                let entry = (sec.clone(), key, CfgVal::Text(val));
                proof {
                    if sp_entries(v@, c as int, sec@) is Some {
                        let ts = sp_entries(v@, c as int, sec@)->0;
                        assert(abs_entries(acc@.push(entry)) =~= abs_entries(acc@).push(t_abs));
                        assert(abs_entries(acc@) + (seq![t_abs] + ts) =~= abs_entries(acc@).push(
                            t_abs,
                        ) + ts);
                    }
                }
                acc.push(entry);
                i = c;
            } else {
                let (val, c) = match parse_uint(&v, b) {
                    None => {
                        return None;
                    },
                    Some(p) => p,
                };
                let ghost t_abs = (sec@, key@, CfgV::NumV(val as int));
                let entry = (sec.clone(), key, CfgVal::Num(val));
                proof {
                    if sp_entries(v@, c as int, sec@) is Some {
                        let ts = sp_entries(v@, c as int, sec@)->0;
                        assert(abs_entries(acc@.push(entry)) =~= abs_entries(acc@).push(t_abs));
                        assert(abs_entries(acc@) + (seq![t_abs] + ts) =~= abs_entries(acc@).push(
                            t_abs,
                        ) + ts);
                    }
                }
                acc.push(entry);
                i = c;
            }
        }
    }
}

/// The last text bound to a key in a section of the parsed entries.
fn lookup_text(ts: &Vec<(String, String, CfgVal)>, sec: &str, key: &str) -> (r: Option<String>)
    ensures
        r is Some <==> cfg_lookup(abs_entries(ts@), sec@, key@) matches Some(CfgV::TextV(_)),
        r is Some ==> Some(CfgV::TextV(r->0@)) == cfg_lookup(abs_entries(ts@), sec@, key@),
{
    let sec_s = String::from_str(sec);
    let key_s = String::from_str(key);
    let mut idx = ts.len();
    proof {
        assert(abs_entries(ts@).take(idx as int) =~= abs_entries(ts@));
    }
    while idx > 0
        invariant
            0 <= idx <= ts@.len(),
            sec_s@ == sec@ && key_s@ == key@,
            cfg_lookup(abs_entries(ts@), sec@, key@) == cfg_lookup(
                abs_entries(ts@).take(idx as int),
                sec@,
                key@,
            ),
        decreases idx,
    {
        proof {
            assert(abs_entries(ts@).take(idx as int).drop_last() =~= abs_entries(ts@).take(
                idx as int - 1,
            ));
            assert(abs_entries(ts@).take(idx as int).last() == abs_entries(ts@)[idx as int - 1]);
        }
        if ts[idx - 1].0 == sec_s && ts[idx - 1].1 == key_s {
            match &ts[idx - 1].2 {
                CfgVal::Text(t) => {
                    return Some(t.clone());
                },
                CfgVal::Num(_) => {
                    return None;
                },
            }
        }
        idx = idx - 1;
    }
    proof {
        assert(abs_entries(ts@).take(0) =~= Seq::<(Seq<char>, Seq<char>, CfgV)>::empty());
    }
    None
}

/// The last number bound to a key in a section of the parsed entries.
fn lookup_num(ts: &Vec<(String, String, CfgVal)>, sec: &str, key: &str) -> (r: Option<u64>)
    ensures
        r is Some <==> cfg_lookup(abs_entries(ts@), sec@, key@) matches Some(CfgV::NumV(_)),
        r is Some ==> Some(CfgV::NumV(r->0 as int)) == cfg_lookup(abs_entries(ts@), sec@, key@),
{
    let sec_s = String::from_str(sec);
    let key_s = String::from_str(key);
    let mut idx = ts.len();
    proof {
        assert(abs_entries(ts@).take(idx as int) =~= abs_entries(ts@));
    }
    while idx > 0
        invariant
            0 <= idx <= ts@.len(),
            sec_s@ == sec@ && key_s@ == key@,
            cfg_lookup(abs_entries(ts@), sec@, key@) == cfg_lookup(
                abs_entries(ts@).take(idx as int),
                sec@,
                key@,
            ),
        decreases idx,
    {
        proof {
            assert(abs_entries(ts@).take(idx as int).drop_last() =~= abs_entries(ts@).take(
                idx as int - 1,
            ));
            assert(abs_entries(ts@).take(idx as int).last() == abs_entries(ts@)[idx as int - 1]);
        }
        if ts[idx - 1].0 == sec_s && ts[idx - 1].1 == key_s {
            match &ts[idx - 1].2 {
                CfgVal::Num(val) => {
                    return Some(*val);
                },
                CfgVal::Text(_) => {
                    return None;
                },
            }
        }
        idx = idx - 1;
    }
    proof {
        assert(abs_entries(ts@).take(0) =~= Seq::<(Seq<char>, Seq<char>, CfgV)>::empty());
    }
    None
}

/// The process options of one service.
pub struct ServerOptions {
    pub port: u64,
    pub workers: u64,
    pub kafka_workers: u64,
    pub log_level: String,
    pub redis_connection_string: String,
}

/// The consumer settings handed to the bus client.
pub struct KafkaConsumerOptions {
    pub group_id: String,
    pub bootstrap_servers: String,
    pub enable_partition_eof: String,
    pub session_timeout_ms: String,
    pub enable_auto_commit: String,
}

/// The configured names of the choreography's topics.
pub struct KafkaTopics {
    pub orders_service_topic: String,
    pub warehouse_service_topic: String,
    pub transactions_topic: String,
    pub billing_service_topic: String,
}

/// Addresses of the services the gateway proxies reads to.
pub struct ServicesParams {
    pub orders_service_addr: String,
    pub warehouse_service_addr: String,
}

/// A whole parsed configuration.
pub struct Config {
    pub server: ServerOptions,
    pub kafka_consumer: KafkaConsumerOptions,
    pub kafka_topics: KafkaTopics,
    pub services: Option<ServicesParams>,
}

/// Every mandatory key is present with the right kind of value.
pub open spec fn config_ok(s: Seq<char>) -> bool {
    &&& sp_entries(s, 0, Seq::empty()) is Some
    &&& cfg_num(s, "server"@, "port"@) is Some
    &&& cfg_num(s, "server"@, "workers"@) is Some
    &&& cfg_num(s, "server"@, "kafka_workers"@) is Some
    &&& cfg_text(s, "server"@, "log_level"@) is Some
    &&& cfg_text(s, "server"@, "redis_connection_string"@) is Some
    &&& cfg_text(s, "kafka_consumer"@, "group_id"@) is Some
    &&& cfg_text(s, "kafka_consumer"@, "bootstrap_servers"@) is Some
    &&& cfg_text(s, "kafka_consumer"@, "enable_partition_eof"@) is Some
    &&& cfg_text(s, "kafka_consumer"@, "session_timeout_ms"@) is Some
    &&& cfg_text(s, "kafka_consumer"@, "enable_auto_commit"@) is Some
    &&& cfg_text(s, "kafka_topics"@, "orders_service_topic"@) is Some
    &&& cfg_text(s, "kafka_topics"@, "warehouse_service_topic"@) is Some
    &&& cfg_text(s, "kafka_topics"@, "transactions_topic"@) is Some
    &&& cfg_text(s, "kafka_topics"@, "billing_service_topic"@) is Some
}

/// Parses a configuration text; `None` on a text that does not follow the
/// grammar or lacks a mandatory key. The two gateway service addresses are
/// optional and come along only as a pair.
pub fn read_and_parse_config(text: &str) -> (r: Option<Config>)
    ensures
        r is Some <==> config_ok(text@),
        r is Some ==> {
            let c = r->0;
            &&& Some(c.server.port as int) == cfg_num(text@, "server"@, "port"@)
            &&& Some(c.server.workers as int) == cfg_num(text@, "server"@, "workers"@)
            &&& Some(c.server.kafka_workers as int) == cfg_num(
                text@,
                "server"@,
                "kafka_workers"@,
            )
            &&& Some(c.server.log_level@) == cfg_text(text@, "server"@, "log_level"@)
            &&& Some(c.server.redis_connection_string@) == cfg_text(
                text@,
                "server"@,
                "redis_connection_string"@,
            )
            &&& Some(c.kafka_consumer.group_id@) == cfg_text(
                text@,
                "kafka_consumer"@,
                "group_id"@,
            )
            &&& Some(c.kafka_consumer.bootstrap_servers@) == cfg_text(
                text@,
                "kafka_consumer"@,
                "bootstrap_servers"@,
            )
            &&& Some(c.kafka_consumer.enable_partition_eof@) == cfg_text(
                text@,
                "kafka_consumer"@,
                "enable_partition_eof"@,
            )
            &&& Some(c.kafka_consumer.session_timeout_ms@) == cfg_text(
                text@,
                "kafka_consumer"@,
                "session_timeout_ms"@,
            )
            &&& Some(c.kafka_consumer.enable_auto_commit@) == cfg_text(
                text@,
                "kafka_consumer"@,
                "enable_auto_commit"@,
            )
            &&& Some(c.kafka_topics.orders_service_topic@) == cfg_text(
                text@,
                "kafka_topics"@,
                "orders_service_topic"@,
            )
            &&& Some(c.kafka_topics.warehouse_service_topic@) == cfg_text(
                text@,
                "kafka_topics"@,
                "warehouse_service_topic"@,
            )
            &&& Some(c.kafka_topics.transactions_topic@) == cfg_text(
                text@,
                "kafka_topics"@,
                "transactions_topic"@,
            )
            &&& Some(c.kafka_topics.billing_service_topic@) == cfg_text(
                text@,
                "kafka_topics"@,
                "billing_service_topic"@,
            )
            &&& (c.services is Some <==> cfg_text(text@, "services"@, "orders_service_addr"@)
                is Some && cfg_text(text@, "services"@, "warehouse_service_addr"@) is Some)
            &&& c.services is Some ==> Some(c.services->0.orders_service_addr@) == cfg_text(
                text@,
                "services"@,
                "orders_service_addr"@,
            ) && Some(c.services->0.warehouse_service_addr@) == cfg_text(
                text@,
                "services"@,
                "warehouse_service_addr"@,
            )
        },
{
    let ts = match parse_entries(text) {
        None => {
            return None;
        },
        Some(ts) => ts,
    };
    let port = match lookup_num(&ts, "server", "port") {
        None => {
            return None;
        },
        Some(x) => x,
    };
    let workers = match lookup_num(&ts, "server", "workers") {
        None => {
            return None;
        },
        Some(x) => x,
    };
    let kafka_workers = match lookup_num(&ts, "server", "kafka_workers") {
        None => {
            return None;
        },
        Some(x) => x,
    };
    let log_level = match lookup_text(&ts, "server", "log_level") {
        None => {
            return None;
        },
        Some(x) => x,
    };
    let redis_connection_string = match lookup_text(&ts, "server", "redis_connection_string") {
        None => {
            return None;
        },
        Some(x) => x,
    };
    let group_id = match lookup_text(&ts, "kafka_consumer", "group_id") {
        None => {
            return None;
        },
        Some(x) => x,
    };
    let bootstrap_servers = match lookup_text(&ts, "kafka_consumer", "bootstrap_servers") {
        None => {
            return None;
        },
        Some(x) => x,
    };
    let enable_partition_eof = match lookup_text(&ts, "kafka_consumer", "enable_partition_eof") {
        None => {
            return None;
        },
        Some(x) => x,
    };
    let session_timeout_ms = match lookup_text(&ts, "kafka_consumer", "session_timeout_ms") {
        None => {
            return None;
        },
        Some(x) => x,
    };
    let enable_auto_commit = match lookup_text(&ts, "kafka_consumer", "enable_auto_commit") {
        None => {
            return None;
        },
        Some(x) => x,
    };
    let orders_service_topic = match lookup_text(&ts, "kafka_topics", "orders_service_topic") {
        None => {
            return None;
        },
        Some(x) => x,
    };
    let warehouse_service_topic = match lookup_text(
        &ts,
        "kafka_topics",
        "warehouse_service_topic",
    ) {
        None => {
            return None;
        },
        Some(x) => x,
    };
    let transactions_topic = match lookup_text(&ts, "kafka_topics", "transactions_topic") {
        None => {
            return None;
        },
        Some(x) => x,
    };
    let billing_service_topic = match lookup_text(&ts, "kafka_topics", "billing_service_topic") {
        None => {
            return None;
        },
        Some(x) => x,
    };
    let services = match lookup_text(&ts, "services", "orders_service_addr") {
        None => None,
        Some(oaddr) => match lookup_text(&ts, "services", "warehouse_service_addr") {
            None => None,
            Some(waddr) => Some(
                ServicesParams {
                    orders_service_addr: oaddr,
                    warehouse_service_addr: waddr,
                },
            ),
        },
    };
    Some(
        Config {
            server: ServerOptions {
                port,
                workers,
                kafka_workers,
                log_level,
                redis_connection_string,
            },
            kafka_consumer: KafkaConsumerOptions {
                group_id,
                bootstrap_servers,
                enable_partition_eof,
                session_timeout_ms,
                enable_auto_commit,
            },
            kafka_topics: KafkaTopics {
                orders_service_topic,
                warehouse_service_topic,
                transactions_topic,
                billing_service_topic,
            },
            services,
        },
    )
}

} // verus!
