//! Component-level checks: the store's copy primitive, the shadow manager,
//! the reservation engine, the body grammar, the gateway key and the
//! configuration parser.

use txsaga::config::read_and_parse_config;
use txsaga::errors::SagaError;
use txsaga::gateway::{partition_key, publish_request};
use txsaga::inventory::{reserve, GoodOp, GoodReq};
use txsaga::message::{parse_envelope, Operation, Topic};
use txsaga::payload::{
    parse_adjust_payload, parse_billing_payload, parse_create_payload, parse_update_payload,
    render_adjust_payload, render_goods_payload,
};
use txsaga::records::{count_field_name, good_field_name, order_from_fields, status_field_name};
use txsaga::shadow::{begin, commit, rollback, SHADOW_TTL_SECS};
use txsaga::store::{CopyOutcome, Key, OrderId, RecordStore};

fn uid(user: &str, order: &str) -> OrderId {
    OrderId::new(String::from(user), String::from(order))
}

fn seed_order(store: &mut RecordStore, user: &str, order: &str, goods: &[(u64, u64)], now: u64) {
    let key = Key::Order(uid(user, order));
    store.hset(
        &key,
        &status_field_name(),
        &String::from("created"),
        now,
    );
    for (gid, count) in goods {
        store.hset(
            &key,
            &good_field_name(*gid),
            &String::from(format!("{}", count)),
            now,
        );
    }
}

#[test]
fn copy_atomic_guards_both_sides() {
    let mut store = RecordStore::new();
    let now = 10;
    let src = Key::Order(uid("u", "1"));
    let dst = Key::Shadow(uid("u", "1"));
    assert_eq!(store.copy_atomic(&src, &dst, now), CopyOutcome::SourceMissing);
    seed_order(&mut store, "u", "1", &[(3, 7)], now);
    assert_eq!(store.copy_atomic(&src, &dst, now), CopyOutcome::Copied);
    assert_eq!(
        store
            .hget(&Key::Shadow(uid("u", "1")), &good_field_name(3), now)
            .unwrap(),
        "7"
    );
    assert_eq!(store.copy_atomic(&src, &dst, now), CopyOutcome::AlreadyExists);
}

#[test]
fn second_begin_conflicts() {
    let mut store = RecordStore::new();
    let now = 10;
    seed_order(&mut store, "u", "1", &[(3, 7)], now);
    let id = uid("u", "1");
    assert!(begin(&mut store, &id, now, SHADOW_TTL_SECS).is_ok());
    assert_eq!(
        begin(&mut store, &id, now, SHADOW_TTL_SECS).unwrap_err(),
        SagaError::TransactionConflict
    );
}

#[test]
fn begin_without_order_reports_not_found() {
    let mut store = RecordStore::new();
    let id = uid("u", "9");
    assert_eq!(
        begin(&mut store, &id, 10, SHADOW_TTL_SECS).unwrap_err(),
        SagaError::OrderNotFound
    );
}

#[test]
fn commit_promotes_shadow_and_leaves_none() {
    let mut store = RecordStore::new();
    let now = 10;
    seed_order(&mut store, "u", "1", &[(3, 7)], now);
    let id = uid("u", "1");
    begin(&mut store, &id, now, SHADOW_TTL_SECS).unwrap();
    // edit the shadow only
    store.hset(
        &Key::Shadow(uid("u", "1")),
        &good_field_name(3),
        &String::from("9"),
        now,
    );
    assert_eq!(
        store
            .hget(&Key::Order(uid("u", "1")), &good_field_name(3), now)
            .unwrap(),
        "7"
    );
    commit(&mut store, &id, false, now);
    assert!(!store.exists_key(&Key::Shadow(uid("u", "1")), now));
    assert!(store.exists_key(&Key::Order(uid("u", "1")), now));
    assert_eq!(
        store
            .hget(&Key::Order(uid("u", "1")), &good_field_name(3), now)
            .unwrap(),
        "9"
    );
}

#[test]
fn rollback_is_idempotent() {
    let mut store = RecordStore::new();
    let now = 10;
    seed_order(&mut store, "u", "1", &[(3, 7)], now);
    let id = uid("u", "1");
    begin(&mut store, &id, now, SHADOW_TTL_SECS).unwrap();
    rollback(&mut store, &id);
    assert!(!store.exists_key(&Key::Shadow(uid("u", "1")), now));
    rollback(&mut store, &id);
    assert!(!store.exists_key(&Key::Shadow(uid("u", "1")), now));
    assert_eq!(
        store
            .hget(&Key::Order(uid("u", "1")), &good_field_name(3), now)
            .unwrap(),
        "7"
    );
}

#[test]
fn shadow_expires_and_frees_the_order() {
    let mut store = RecordStore::new();
    let t0 = 100;
    seed_order(&mut store, "u", "1", &[(3, 7)], t0);
    let id = uid("u", "1");
    begin(&mut store, &id, t0, 30).unwrap();
    assert!(store.exists_key(&Key::Shadow(uid("u", "1")), 129));
    assert!(!store.exists_key(&Key::Shadow(uid("u", "1")), 130));
    assert!(begin(&mut store, &id, 130, 30).is_ok());
}

#[test]
fn failed_reserve_changes_no_count() {
    let mut store = RecordStore::new();
    let now = 10;
    store.hset(&Key::Good(1), &count_field_name(), &String::from("10"), now);
    store.hset(&Key::Good(2), &count_field_name(), &String::from("50"), now);
    let goods = vec![GoodReq { id: 1, count: 5 }, GoodReq { id: 2, count: 100 }];
    let r = reserve(&mut store, &goods, now);
    assert_eq!(r.unwrap_err(), SagaError::InsufficientStock(2));
    assert_eq!(store.hget(&Key::Good(1), &count_field_name(), now).unwrap(), "10");
    assert_eq!(store.hget(&Key::Good(2), &count_field_name(), now).unwrap(), "50");
}

#[test]
fn reserve_reports_missing_and_corrupt_goods() {
    let mut store = RecordStore::new();
    let now = 10;
    let goods = vec![GoodReq { id: 4, count: 1 }];
    assert_eq!(
        reserve(&mut store, &goods, now).unwrap_err(),
        SagaError::GoodNotFound(4)
    );
    store.hset(&Key::Good(4), &count_field_name(), &String::from("many"), now);
    assert_eq!(
        reserve(&mut store, &goods, now).unwrap_err(),
        SagaError::CorruptRecord
    );
}

#[test]
fn create_body_grammar() {
    let ok = parse_create_payload("{\"goods\":[{\"id\":5,\"count\":2}]}").unwrap();
    assert_eq!(ok.len(), 1);
    assert_eq!(ok[0].id, 5);
    assert_eq!(ok[0].count, 2);

    // order of keys and blanks do not matter
    let flipped = parse_create_payload(" { \"goods\" : [ { \"count\" : 3 , \"id\" : 9 } ] } ")
        .unwrap();
    assert_eq!(flipped[0].id, 9);
    assert_eq!(flipped[0].count, 3);

    // inputs outside the schema are rejected
    assert!(parse_create_payload("{}").is_none());
    assert!(parse_create_payload("{\"id\":1}").is_none());
    assert!(parse_create_payload("{\"goods\":[]}").is_none());
    assert!(parse_create_payload("{\"goods\":[{\"id\":5,\"count\":-2}]}").is_none());
    assert!(parse_create_payload("{\"goods\":[{\"id\":5,\"count\":0}]}").is_none());
    assert!(parse_create_payload("{\"goods\":[{\"id\":5,\"count\":2.5}]}").is_none());
    assert!(parse_create_payload("{\"goods\":[{\"id\":5,\"count\":2,\"extra\":1}]}").is_none());
    assert!(parse_create_payload(
        "{\"goods\":[{\"id\":5,\"count\":2},{\"id\":5,\"count\":3}]}"
    )
    .is_none());
    assert!(parse_create_payload("{\"goods\":[{\"id\":5,\"count\":2}]").is_none());
    assert!(parse_create_payload("not json").is_none());
}

#[test]
fn update_and_adjust_body_grammar() {
    let upd = parse_update_payload(
        "{\"goods\":[{\"id\":5,\"count\":2,\"operation\":\"update\"}]}",
    )
    .unwrap();
    assert_eq!(upd[0].op, GoodOp::Update);
    assert!(parse_update_payload("{\"goods\":[{\"id\":5,\"count\":2}]}").is_none());
    assert!(parse_update_payload(
        "{\"goods\":[{\"id\":5,\"count\":2,\"operation\":\"other\"}]}"
    )
    .is_none());
    assert!(parse_update_payload(
        "{\"goods\":[{\"id\":5,\"count\":0,\"operation\":\"update\"}]}"
    )
    .is_none());

    let adj = parse_adjust_payload(
        "{\"goods\":[{\"id\":5,\"count\":-4,\"operation\":\"update\"}]}",
    )
    .unwrap();
    assert_eq!(adj[0].delta, -4);
    assert_eq!(parse_billing_payload("{\"id\":12}").unwrap(), 12);
    assert!(parse_billing_payload("{\"id\":\"12\"}").is_none());
}

#[test]
fn rendered_bodies_parse_back() {
    let goods = vec![GoodReq { id: 5, count: 2 }, GoodReq { id: 9, count: 1 }];
    let text = render_goods_payload(&goods);
    assert_eq!(text, "{\"goods\":[{\"id\":5,\"count\":2},{\"id\":9,\"count\":1}]}");
    let back = parse_create_payload(text.as_str()).unwrap();
    assert_eq!(back.len(), 2);
    assert_eq!(back[1].id, 9);

    let deltas = vec![txsaga::inventory::GoodAdj { id: 5, delta: -4, op: GoodOp::Update }];
    let text = render_adjust_payload(&deltas);
    assert_eq!(
        text,
        "{\"goods\":[{\"id\":5,\"count\":-4,\"operation\":\"update\"}]}"
    );
    let back = parse_adjust_payload(text.as_str()).unwrap();
    assert_eq!(back[0].delta, -4);
}

#[test]
fn envelope_parsing_and_errors() {
    let env = parse_envelope(
        &vec![
            (String::from("operation"), String::from("create")),
            (String::from("user_id"), String::from("u1")),
            (String::from("user_id"), String::from("u2")),
        ],
        String::from("{}"),
    )
    .unwrap();
    assert_eq!(env.operation, Operation::Create);
    // the last occurrence of a header wins
    assert_eq!(env.user_id, "u2");

    let no_op = parse_envelope(
        &vec![(String::from("user_id"), String::from("u1"))],
        String::new(),
    );
    assert_eq!(no_op.unwrap_err(), SagaError::MissingOperation);

    let unknown = parse_envelope(&headers_of("purge", "u1", Some("1")), String::new());
    assert_eq!(unknown.unwrap_err(), SagaError::UnknownOperation);

    let no_user = parse_envelope(
        &vec![(String::from("operation"), String::from("create"))],
        String::new(),
    );
    assert_eq!(no_user.unwrap_err(), SagaError::MissingCorrelationKey);

    let no_order = parse_envelope(&headers_of("update", "u1", None), String::new());
    assert_eq!(no_order.unwrap_err(), SagaError::MissingCorrelationKey);
}

fn headers_of(op: &str, user: &str, order: Option<&str>) -> Vec<(String, String)> {
    let mut hs = vec![
        (String::from("operation"), String::from(op)),
        (String::from("user_id"), String::from(user)),
    ];
    if let Some(o) = order {
        hs.push((String::from("order_id"), String::from(o)));
    }
    hs
}

#[test]
fn partition_key_is_the_digest_of_the_request() {
    let user = String::from("u1");
    let order = String::from("o1");
    let body = String::from("{}");
    let key = partition_key(&user, Some(&order), &body);
    assert_eq!(
        key,
        "5d05fe20c4fccf5085c8d002ab53565b14813702713a2bae771fd64778bd7ef3"
    );
    let keyless = partition_key(&user, None, &body);
    assert_eq!(
        keyless,
        "7ff96439776de7cc2672d1688fd734746c6f28582e006fb04507d17f88ecb91c"
    );
}

#[test]
fn publish_request_builds_the_message() {
    let user = String::from("u1");
    let body = String::from("{\"goods\":[{\"id\":5,\"count\":2}]}");
    let m = publish_request(Operation::Create, &user, None, &body);
    assert_eq!(m.topic, Topic::Orders);
    assert_eq!(m.operation, Operation::Create);
    assert_eq!(m.user_id, "u1");
    assert_eq!(m.order_id, "");
    assert_eq!(m.payload.unwrap(), body);
    assert!(m.key.is_some());

    let order = String::from("1");
    let b = publish_request(Operation::MakeBilling, &user, Some(&order), &body);
    assert_eq!(b.topic, Topic::Billing);
}

#[test]
fn order_record_codec() {
    let fields = vec![
        (String::from("status"), String::from("created")),
        (String::from("good_id:5"), String::from("2")),
        (String::from("good_id:12"), String::from("7")),
    ];
    let order = order_from_fields(&fields).unwrap();
    assert_eq!(order.goods.len(), 2);
    assert_eq!(order.goods[0].id, 5);
    assert_eq!(order.goods[1].count, 7);

    let junk = vec![(String::from("status"), String::from("weird"))];
    assert!(order_from_fields(&junk).is_none());
    let stray = vec![
        (String::from("status"), String::from("created")),
        (String::from("naming"), String::from("x")),
    ];
    assert!(order_from_fields(&stray).is_none());
}

#[test]
fn numbers_parse_and_render_exactly() {
    assert_eq!(txsaga::num::parse_u64("42"), Some(42));
    assert_eq!(txsaga::num::parse_u64("0"), Some(0));
    assert_eq!(txsaga::num::parse_u64("007"), Some(7));
    assert_eq!(txsaga::num::parse_u64(""), None);
    assert_eq!(txsaga::num::parse_u64("4x2"), None);
    assert_eq!(txsaga::num::parse_u64("18446744073709551615"), Some(u64::MAX));
    assert_eq!(txsaga::num::parse_u64("18446744073709551616"), None);
    assert_eq!(txsaga::num::u64_to_dec(10500), "10500");
    assert_eq!(txsaga::num::u64_to_dec(0), "0");
}

#[test]
fn configuration_parses_or_refuses_whole() {
    let text = "\
# process options
[server]
port = 8081
workers = 4
kafka_workers = 2
log_level = \"info\"
redis_connection_string = \"redis://127.0.0.1:6379\"

[kafka_consumer]
group_id = \"orders\"
bootstrap_servers = \"localhost:9092\"
enable_partition_eof = \"false\"
session_timeout_ms = \"6000\"
enable_auto_commit = \"true\"

[kafka_topics]
orders_service_topic = \"orders-inbound\"
warehouse_service_topic = \"warehouse-inbound\"
transactions_topic = \"transactions\"
billing_service_topic = \"billing-inbound\"
";
    let cfg = read_and_parse_config(text).unwrap();
    assert_eq!(cfg.server.port, 8081);
    assert_eq!(cfg.server.kafka_workers, 2);
    assert_eq!(cfg.server.log_level, "info");
    assert_eq!(cfg.kafka_consumer.group_id, "orders");
    assert_eq!(cfg.kafka_topics.transactions_topic, "transactions");
    assert!(cfg.services.is_none());

    let with_services = format!(
        "{}\n[services]\norders_service_addr = \"o:1\"\nwarehouse_service_addr = \"w:2\"\n",
        text
    );
    let cfg = read_and_parse_config(with_services.as_str()).unwrap();
    assert_eq!(cfg.services.as_ref().unwrap().orders_service_addr, "o:1");

    // a missing mandatory key refuses the whole file
    let partial = "[server]\nport = 8081\n";
    assert!(read_and_parse_config(partial).is_none());
    // so does a line outside the grammar
    let broken = format!("{}\nport == 1\n", text);
    assert!(read_and_parse_config(broken.as_str()).is_none());
}
