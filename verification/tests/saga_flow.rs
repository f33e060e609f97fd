//! End-to-end runs of the saga choreography against the record store.

use txsaga::billing::BillingContext;
use txsaga::errors::SagaError;
use txsaga::message::{parse_envelope, Envelope, Operation, OutMessage, Topic};
use txsaga::orders::OrdersContext;
use txsaga::records::{count_field_name, status_field_name};
use txsaga::store::{Key, OrderId, RecordStore};
use txsaga::warehouse::WarehouseContext;

fn seed_stock(store: &mut RecordStore, id: u64, count: &str, now: u64) {
    store.hset(
        &Key::Good(id),
        &count_field_name(),
        &String::from(count),
        now,
    );
}

fn stock_of(store: &RecordStore, id: u64, now: u64) -> Option<String> {
    store.hget(&Key::Good(id), &count_field_name(), now)
}

fn headers(op: &str, user: &str, order: Option<&str>) -> Vec<(String, String)> {
    let mut hs = vec![
        (String::from("operation"), String::from(op)),
        (String::from("user_id"), String::from(user)),
    ];
    if let Some(o) = order {
        hs.push((String::from("order_id"), String::from(o)));
    }
    hs
}

fn envelope(op: &str, user: &str, order: Option<&str>, payload: &str) -> Envelope {
    parse_envelope(&headers(op, user, order), String::from(payload)).unwrap()
}

fn forward(m: &OutMessage) -> Envelope {
    Envelope {
        operation: m.operation,
        user_id: m.user_id.clone(),
        order_id: Some(m.order_id.clone()),
        payload: match &m.payload {
            Some(p) => p.clone(),
            None => String::new(),
        },
    }
}

fn order_status(store: &RecordStore, user: &str, order: &str, now: u64) -> Option<String> {
    let id = OrderId::new(String::from(user), String::from(order));
    store.hget(&Key::Order(id), &status_field_name(), now)
}

fn shadow_exists(store: &RecordStore, user: &str, order: &str, now: u64) -> bool {
    let id = OrderId::new(String::from(user), String::from(order));
    store.exists_key(&Key::Shadow(id), now)
}

/// Runs a full forward saga: orders step, warehouse step, then the outcome
/// back at the orders participant. Returns the warehouse's outcome tag.
fn run_saga(store: &mut RecordStore, env: &Envelope, now: u64) -> Operation {
    let orders = OrdersContext;
    let warehouse = WarehouseContext;
    let m1 = orders.handle(store, env, now).unwrap().unwrap();
    assert_eq!(m1.topic, Topic::Warehouse);
    let m2 = warehouse.handle(store, &forward(&m1), now).unwrap();
    assert_eq!(m2.topic, Topic::Transactions);
    let outcome = envelope(
        if m2.operation == Operation::Commit {
            "commit"
        } else {
            "rollout"
        },
        m2.user_id.as_str(),
        Some(m2.order_id.as_str()),
        "",
    );
    let done = orders.handle(store, &outcome, now).unwrap();
    assert!(done.is_none());
    m2.operation
}

#[test]
fn create_then_delete_restores_stock() {
    let mut store = RecordStore::new();
    let now = 1000;
    seed_stock(&mut store, 5, "10", now);

    let create = envelope("create", "u1", None, "{\"goods\":[{\"id\":5,\"count\":2}]}");
    let outcome = run_saga(&mut store, &create, now);
    assert_eq!(outcome, Operation::Commit);
    assert_eq!(stock_of(&store, 5, now).unwrap(), "8");
    assert_eq!(order_status(&store, "u1", "1", now).unwrap(), "created");
    assert!(!shadow_exists(&store, "u1", "1", now));

    let delete = envelope("delete", "u1", Some("1"), "");
    let outcome = run_saga(&mut store, &delete, now);
    assert_eq!(outcome, Operation::Commit);
    assert_eq!(stock_of(&store, 5, now).unwrap(), "10");
    assert_eq!(order_status(&store, "u1", "1", now).unwrap(), "deleted");
    assert!(!shadow_exists(&store, "u1", "1", now));
}

#[test]
fn short_stock_publishes_rollout_and_leaves_order_unchanged() {
    let mut store = RecordStore::new();
    let now = 1000;
    seed_stock(&mut store, 5, "10", now);

    let create = envelope("create", "u1", None, "{\"goods\":[{\"id\":5,\"count\":2}]}");
    assert_eq!(run_saga(&mut store, &create, now), Operation::Commit);
    assert_eq!(stock_of(&store, 5, now).unwrap(), "8");

    // the update asks for far more than the warehouse holds
    let update = envelope(
        "update",
        "u1",
        Some("1"),
        "{\"goods\":[{\"id\":5,\"count\":100,\"operation\":\"update\"}]}",
    );
    let outcome = run_saga(&mut store, &update, now);
    assert_eq!(outcome, Operation::Rollback);
    // compensation: live order unchanged, shadow discarded, stock untouched
    assert_eq!(stock_of(&store, 5, now).unwrap(), "8");
    assert_eq!(order_status(&store, "u1", "1", now).unwrap(), "created");
    assert!(!shadow_exists(&store, "u1", "1", now));
    let id = OrderId::new(String::from("u1"), String::from("1"));
    let gf = txsaga::records::good_field_name(5);
    assert_eq!(store.hget(&Key::Order(id), &gf, now).unwrap(), "2");
}

#[test]
fn update_adjusts_stock_and_order() {
    let mut store = RecordStore::new();
    let now = 1000;
    seed_stock(&mut store, 5, "10", now);
    seed_stock(&mut store, 7, "4", now);

    let create = envelope(
        "create",
        "u1",
        None,
        "{\"goods\":[{\"id\":5,\"count\":2},{\"id\":7,\"count\":1}]}",
    );
    assert_eq!(run_saga(&mut store, &create, now), Operation::Commit);
    assert_eq!(stock_of(&store, 5, now).unwrap(), "8");
    assert_eq!(stock_of(&store, 7, now).unwrap(), "3");

    // raise good 5 to 6, drop good 7 from the order
    let update = envelope(
        "update",
        "u1",
        Some("1"),
        "{\"goods\":[{\"id\":5,\"count\":6,\"operation\":\"update\"},{\"id\":7,\"count\":1,\"operation\":\"delete\"}]}",
    );
    assert_eq!(run_saga(&mut store, &update, now), Operation::Commit);
    assert_eq!(stock_of(&store, 5, now).unwrap(), "4");
    assert_eq!(stock_of(&store, 7, now).unwrap(), "4");
    let id = OrderId::new(String::from("u1"), String::from("1"));
    assert_eq!(
        store
            .hget(&Key::Order(id.duplicate()), &txsaga::records::good_field_name(5), now)
            .unwrap(),
        "6"
    );
    assert!(store
        .hget(&Key::Order(id), &txsaga::records::good_field_name(7), now)
        .is_none());
}

#[test]
fn billing_advances_status_once() {
    let mut store = RecordStore::new();
    let now = 1000;
    seed_stock(&mut store, 5, "10", now);
    let create = envelope("create", "u1", None, "{\"goods\":[{\"id\":5,\"count\":2}]}");
    assert_eq!(run_saga(&mut store, &create, now), Operation::Commit);

    let billing = BillingContext;
    let user = String::from("u1");
    let order = String::from("1");
    let body = String::from("{\"id\":1}");
    let r = billing.handle(&mut store, &user, &order, &body, now);
    assert!(r.is_ok());
    assert_eq!(order_status(&store, "u1", "1", now).unwrap(), "payed");

    let again = billing.handle(&mut store, &user, &order, &body, now);
    assert_eq!(again.unwrap_err(), SagaError::AlreadyPayed);

    let bad_body = String::from("{\"id\":-1}");
    let invalid = billing.handle(&mut store, &user, &order, &bad_body, now);
    assert_eq!(invalid.unwrap_err(), SagaError::Validation);
}

#[test]
fn payed_order_refuses_update() {
    let mut store = RecordStore::new();
    let now = 1000;
    seed_stock(&mut store, 5, "10", now);
    let create = envelope("create", "u1", None, "{\"goods\":[{\"id\":5,\"count\":2}]}");
    assert_eq!(run_saga(&mut store, &create, now), Operation::Commit);
    let billing = BillingContext;
    billing
        .handle(
            &mut store,
            &String::from("u1"),
            &String::from("1"),
            &String::from("{\"id\":1}"),
            now,
        )
        .unwrap();

    let orders = OrdersContext;
    let update = envelope(
        "update",
        "u1",
        Some("1"),
        "{\"goods\":[{\"id\":5,\"count\":1,\"operation\":\"update\"}]}",
    );
    let r = orders.handle(&mut store, &update, now);
    assert_eq!(r.unwrap_err(), SagaError::AlreadyPayed);
}

#[test]
fn unknown_good_op_rolls_out() {
    let mut store = RecordStore::new();
    let now = 1000;
    seed_stock(&mut store, 5, "10", now);
    let warehouse = WarehouseContext;
    // a warehouse adjustment with the add tag is not a supported mutation
    let env = envelope(
        "update",
        "u1",
        Some("1"),
        "{\"goods\":[{\"id\":5,\"count\":1,\"operation\":\"add\"}]}",
    );
    let m = warehouse.handle(&mut store, &env, now).unwrap();
    assert_eq!(m.operation, Operation::Rollback);
    assert_eq!(stock_of(&store, 5, now).unwrap(), "10");
}

#[test]
fn schema_gate_rejects_before_any_write() {
    let mut store = RecordStore::new();
    let now = 1000;
    let orders = OrdersContext;

    let no_goods = envelope("create", "u1", None, "{\"id\":1}");
    let r = orders.handle(&mut store, &no_goods, now);
    assert_eq!(r.unwrap_err(), SagaError::Validation);

    let negative = envelope("create", "u1", None, "{\"goods\":[{\"id\":5,\"count\":-2}]}");
    let r = orders.handle(&mut store, &negative, now);
    assert_eq!(r.unwrap_err(), SagaError::Validation);

    // nothing was written: no counter, no order, no shadow
    assert!(!store.exists_key(&Key::Counter, now));
    assert!(!store.exists_key(&Key::Order(OrderId::new(String::from("u1"), String::from("1"))), now));
    assert!(!shadow_exists(&store, "u1", "1", now));
}

#[test]
fn read_paths_follow_the_lifecycle() {
    let mut store = RecordStore::new();
    let now = 1000;
    seed_stock(&mut store, 5, "10", now);
    let create = envelope("create", "u1", None, "{\"goods\":[{\"id\":5,\"count\":2}]}");
    assert_eq!(run_saga(&mut store, &create, now), Operation::Commit);

    let id = OrderId::new(String::from("u1"), String::from("1"));
    let order = txsaga::orders::get_order(&store, &id, now).unwrap();
    assert_eq!(order.goods.len(), 1);
    assert_eq!(order.goods[0].id, 5);
    assert_eq!(order.goods[0].count, 2);
    assert_eq!(txsaga::warehouse::get_good(&store, 5, now), Some(8));
    assert_eq!(txsaga::warehouse::get_good(&store, 99, now), None);

    let delete = envelope("delete", "u1", Some("1"), "");
    assert_eq!(run_saga(&mut store, &delete, now), Operation::Commit);
    // a deleted order reads as absent
    let id = OrderId::new(String::from("u1"), String::from("1"));
    assert!(txsaga::orders::get_order(&store, &id, now).is_none());
}

#[test]
fn update_on_missing_order_reports_not_found() {
    let mut store = RecordStore::new();
    let orders = OrdersContext;
    let update = envelope(
        "update",
        "u1",
        Some("7"),
        "{\"goods\":[{\"id\":5,\"count\":1,\"operation\":\"update\"}]}",
    );
    let r = orders.handle(&mut store, &update, 1000);
    assert_eq!(r.unwrap_err(), SagaError::OrderNotFound);
}

#[test]
fn redelivered_outcomes_are_no_ops() {
    let mut store = RecordStore::new();
    let now = 1000;
    seed_stock(&mut store, 5, "10", now);
    let create = envelope("create", "u1", None, "{\"goods\":[{\"id\":5,\"count\":2}]}");
    assert_eq!(run_saga(&mut store, &create, now), Operation::Commit);

    let orders = OrdersContext;
    // the commit outcome arrives a second time: no shadow is left, and the
    // promoted order stays exactly as it is
    let commit_again = envelope("commit", "u1", Some("1"), "");
    assert!(orders.handle(&mut store, &commit_again, now).unwrap().is_none());
    assert_eq!(order_status(&store, "u1", "1", now).unwrap(), "created");
    assert_eq!(stock_of(&store, 5, now).unwrap(), "8");

    // a rollback outcome for a finished saga is equally harmless
    let rollout = envelope("rollout", "u1", Some("1"), "");
    assert!(orders.handle(&mut store, &rollout, now).unwrap().is_none());
    assert_eq!(order_status(&store, "u1", "1", now).unwrap(), "created");
}

#[test]
fn empty_stock_rolls_back_the_whole_create() {
    let mut store = RecordStore::new();
    let now = 1000;
    seed_stock(&mut store, 5, "0", now);

    // the shadow is begun, the warehouse refuses two of an empty good, the
    // rollback outcome discards the shadow again
    let create = envelope("create", "u1", None, "{\"goods\":[{\"id\":5,\"count\":2}]}");
    assert_eq!(run_saga(&mut store, &create, now), Operation::Rollback);
    assert_eq!(stock_of(&store, 5, now).unwrap(), "0");
    assert!(order_status(&store, "u1", "1", now).is_none());
    assert!(!shadow_exists(&store, "u1", "1", now));
}
