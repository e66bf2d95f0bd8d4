use order_service::model::{Delivery, Item, Order, Payment};
use order_service::save::{
    insert_delivery, insert_item, insert_order, insert_order_item, insert_payment,
    read_delivery_id, save_order, start_save_order, SaveProgress, SaveStep,
};
use order_service::sql::{
    Column, Error, Fetch, Reply, Row, SqlValue, Statement, StatementKind, StorageError,
    StorageErrorKind,
};

fn text(s: &str) -> SqlValue {
    SqlValue::Text(s.to_string())
}

fn delivery() -> Delivery {
    Delivery {
        name: "Test Testov".to_string(),
        phone: "+9720000000".to_string(),
        zip: "2639809".to_string(),
        city: "Kiryat Mozkin".to_string(),
        address: "Ploshad Mira 15".to_string(),
        region: "Kraiot".to_string(),
        email: "test@gmail.com".to_string(),
    }
}

fn payment() -> Payment {
    Payment {
        transaction: "b563feb7b2b84b6test".to_string(),
        request_id: "".to_string(),
        currency: "USD".to_string(),
        provider: "wbpay".to_string(),
        amount: 1817,
        payment_dt: 1637907727,
        bank: "alpha".to_string(),
        delivery_cost: 1500,
        goods_total: 317,
        custom_fee: 0,
    }
}

fn item(chrt_id: u32) -> Item {
    Item {
        chrt_id,
        track_number: "WBILMTESTTRACK".to_string(),
        price: 453,
        rid: "ab4219087a764ae0btest".to_string(),
        name: "Mascaras".to_string(),
        sale: 30,
        size: "0".to_string(),
        total_price: 317,
        nm_id: 2389212,
        brand: "Vivienne Sabo".to_string(),
        status: 202,
    }
}

fn order(items: Vec<Item>) -> Order {
    Order {
        order_uid: "b563feb7b2b84b6test".to_string(),
        track_number: "WBILMTESTTRACK".to_string(),
        entry: "WBIL".to_string(),
        delivery: delivery(),
        payment: payment(),
        items,
        locale: "en".to_string(),
        internal_signature: "".to_string(),
        customer_id: "test".to_string(),
        delivery_service: "meest".to_string(),
        shardkey: "9".to_string(),
        sm_id: 99,
        date_created: "2021-11-26T06:22:19Z".to_string(),
        oof_shard: "1".to_string(),
    }
}

fn id_reply(id: i64) -> Reply {
    Reply::Rows(vec![Row {
        columns: vec![Column { name: "delivery_id".to_string(), value: SqlValue::BigInt(id) }],
    }])
}

fn failure(kind: StorageErrorKind, message: &str) -> StorageError {
    StorageError { kind, message: message.to_string() }
}

/// Drives a save to its end with the replies given, and says what was sent.
fn drive(order: &Order, replies: Vec<Reply>) -> (Vec<Statement>, SaveStep) {
    let mut sent = Vec::new();
    let mut step = start_save_order(order);
    for reply in replies {
        match step {
            SaveStep::Send { progress, statement } => {
                sent.push(statement);
                step = save_order(order, progress, reply);
            }
            end => return (sent, end),
        }
    }
    if let SaveStep::Send { statement, .. } = &step {
        sent.push(Statement { kind: statement.kind, params: statement.params.clone() });
    }
    (sent, step)
}

#[test]
fn insert_delivery_lists_the_seven_fields() {
    let statement = insert_delivery(&delivery());
    assert_eq!(statement.kind, StatementKind::InsertDelivery);
    assert_eq!(
        statement.params,
        vec![
            text("Test Testov"),
            text("+9720000000"),
            text("2639809"),
            text("Kiryat Mozkin"),
            text("Ploshad Mira 15"),
            text("Kraiot"),
            text("test@gmail.com"),
        ]
    );
}

#[test]
fn insert_payment_lists_the_ten_fields() {
    let statement = insert_payment(&payment());
    assert_eq!(statement.kind, StatementKind::InsertPayment);
    assert_eq!(
        statement.params,
        vec![
            text("b563feb7b2b84b6test"),
            text(""),
            text("USD"),
            text("wbpay"),
            SqlValue::Unsigned(1817),
            SqlValue::Unsigned(1637907727),
            text("alpha"),
            SqlValue::Unsigned(1500),
            SqlValue::Unsigned(317),
            SqlValue::Unsigned(0),
        ]
    );
}

#[test]
fn insert_order_refers_to_delivery_and_payment() {
    let statement = insert_order(&order(vec![]), 42);
    assert_eq!(statement.kind, StatementKind::InsertOrder);
    assert_eq!(
        statement.params,
        vec![
            text("b563feb7b2b84b6test"),
            text("WBILMTESTTRACK"),
            text("WBIL"),
            SqlValue::BigInt(42),
            text("b563feb7b2b84b6test"),
            text("en"),
            text(""),
            text("test"),
            text("meest"),
            text("9"),
            SqlValue::Int(99),
            text("2021-11-26T06:22:19Z"),
            text("1"),
        ]
    );
}

#[test]
fn insert_item_lists_the_eleven_fields() {
    let statement = insert_item(&item(9934930));
    assert_eq!(statement.kind, StatementKind::InsertItem);
    assert_eq!(
        statement.params,
        vec![
            SqlValue::Unsigned(9934930),
            text("WBILMTESTTRACK"),
            SqlValue::Unsigned(453),
            text("ab4219087a764ae0btest"),
            text("Mascaras"),
            SqlValue::Unsigned(30),
            text("0"),
            SqlValue::Unsigned(317),
            SqlValue::Unsigned(2389212),
            text("Vivienne Sabo"),
            SqlValue::Unsigned(202),
        ]
    );
}

#[test]
fn insert_order_item_joins_order_and_item() {
    let statement = insert_order_item(&order(vec![]), &item(7));
    assert_eq!(statement.kind, StatementKind::InsertOrderItem);
    assert_eq!(statement.params, vec![text("b563feb7b2b84b6test"), SqlValue::Unsigned(7)]);
}

#[test]
fn statement_texts_name_their_tables() {
    assert!(StatementKind::InsertDelivery.sql().starts_with("INSERT INTO delivery ("));
    assert!(StatementKind::InsertDelivery.sql().ends_with("RETURNING delivery_id"));
    assert!(StatementKind::InsertPayment.sql().starts_with("INSERT INTO payment ("));
    assert!(StatementKind::InsertOrder.sql().starts_with("INSERT INTO order_info ("));
    assert!(StatementKind::InsertItem.sql().starts_with("INSERT INTO item ("));
    assert_eq!(
        StatementKind::InsertOrderItem.sql(),
        "INSERT INTO order_item (order_uid, item_chrt_id) VALUES ($1, $2)"
    );
    assert!(StatementKind::SelectOrders.sql().contains("JOIN payment p ON oi.payment_transaction = p.transaction"));
    assert!(StatementKind::SelectItems.sql().ends_with("WHERE oi.order_uid = $1"));
}

#[test]
fn placeholders_match_the_parameter_count() {
    let o = order(vec![item(1)]);
    let statements = vec![
        insert_delivery(&o.delivery),
        insert_payment(&o.payment),
        insert_order(&o, 1),
        insert_item(&o.items[0]),
        insert_order_item(&o, &o.items[0]),
    ];
    for statement in statements {
        let n = statement.params.len();
        let sql = statement.kind.sql();
        assert!(sql.contains(&format!("${}", n)));
        assert!(!sql.contains(&format!("${}", n + 1)));
    }
}

#[test]
fn only_the_delivery_insert_returns_a_row() {
    assert_eq!(StatementKind::InsertDelivery.fetch(), Fetch::OneRow);
    assert_eq!(StatementKind::InsertPayment.fetch(), Fetch::Nothing);
    assert_eq!(StatementKind::InsertOrder.fetch(), Fetch::Nothing);
    assert_eq!(StatementKind::InsertItem.fetch(), Fetch::Nothing);
    assert_eq!(StatementKind::InsertOrderItem.fetch(), Fetch::Nothing);
    assert_eq!(StatementKind::SelectOrders.fetch(), Fetch::Rows);
    assert_eq!(StatementKind::SelectItems.fetch(), Fetch::Rows);
}

#[test]
fn save_sends_the_statements_in_order() {
    let o = order(vec![item(1), item(2)]);
    let replies = vec![
        id_reply(17),
        Reply::Done,
        Reply::Done,
        Reply::Done,
        Reply::Done,
        Reply::Done,
        Reply::Done,
    ];
    let (sent, end) = drive(&o, replies);
    assert_eq!(end, SaveStep::Saved);
    assert_eq!(
        sent,
        vec![
            insert_delivery(&o.delivery),
            insert_payment(&o.payment),
            insert_order(&o, 17),
            insert_item(&o.items[0]),
            insert_order_item(&o, &o.items[0]),
            insert_item(&o.items[1]),
            insert_order_item(&o, &o.items[1]),
        ]
    );
}

#[test]
fn save_without_items_takes_three_statements() {
    let o = order(vec![]);
    let (sent, end) = drive(&o, vec![id_reply(1), Reply::Done, Reply::Done]);
    assert_eq!(end, SaveStep::Saved);
    assert_eq!(
        sent,
        vec![insert_delivery(&o.delivery), insert_payment(&o.payment), insert_order(&o, 1)]
    );
}

#[test]
fn save_waits_for_each_reply() {
    let o = order(vec![item(1)]);
    let (sent, end) = drive(&o, vec![id_reply(5), Reply::Done]);
    assert_eq!(sent.len(), 3);
    assert_eq!(
        end,
        SaveStep::Send { progress: SaveProgress::Order, statement: insert_order(&o, 5) }
    );
}

#[test]
fn save_stops_at_a_failed_delivery() {
    let o = order(vec![item(1)]);
    let e = failure(StorageErrorKind::Connection, "connection closed");
    let (sent, end) = drive(&o, vec![Reply::Failed(e.clone()), Reply::Done, Reply::Done]);
    assert_eq!(sent, vec![insert_delivery(&o.delivery)]);
    assert_eq!(end, SaveStep::Failed(Error::Storage(e)));
}

#[test]
fn save_stops_at_a_failed_payment() {
    let o = order(vec![item(1)]);
    let e = failure(StorageErrorKind::Constraint, "duplicate key value violates unique constraint");
    let (sent, end) =
        drive(&o, vec![id_reply(3), Reply::Failed(e.clone()), Reply::Done, Reply::Done]);
    assert_eq!(sent, vec![insert_delivery(&o.delivery), insert_payment(&o.payment)]);
    assert!(sent.iter().all(|s| s.kind != StatementKind::InsertOrder));
    assert_eq!(end, SaveStep::Failed(Error::Storage(e)));
}

#[test]
fn save_stops_at_a_failed_item() {
    let o = order(vec![item(1), item(2)]);
    let e = failure(StorageErrorKind::Constraint, "duplicate key");
    let replies = vec![
        id_reply(3),
        Reply::Done,
        Reply::Done,
        Reply::Done,
        Reply::Done,
        Reply::Failed(e.clone()),
        Reply::Done,
    ];
    let (sent, end) = drive(&o, replies);
    assert_eq!(sent.len(), 6);
    assert_eq!(sent[5], insert_item(&o.items[1]));
    assert_eq!(end, SaveStep::Failed(Error::Storage(e)));
}

#[test]
fn save_needs_the_delivery_number() {
    let o = order(vec![]);
    let (sent, end) = drive(&o, vec![Reply::Done, Reply::Done]);
    assert_eq!(sent.len(), 1);
    assert_eq!(end, SaveStep::Failed(Error::Unreadable));

    let two_rows = match (id_reply(1), id_reply(2)) {
        (Reply::Rows(mut a), Reply::Rows(b)) => {
            a.extend(b);
            Reply::Rows(a)
        }
        _ => unreachable!(),
    };
    let (_, end) = drive(&o, vec![two_rows]);
    assert_eq!(end, SaveStep::Failed(Error::Unreadable));

    let wrong_type = Reply::Rows(vec![Row {
        columns: vec![Column { name: "delivery_id".to_string(), value: SqlValue::Int(1) }],
    }]);
    let (_, end) = drive(&o, vec![wrong_type]);
    assert_eq!(end, SaveStep::Failed(Error::Unreadable));
}

#[test]
fn read_delivery_id_takes_the_first_column() {
    assert_eq!(read_delivery_id(&id_reply(-4)), Some(-4));
    assert_eq!(read_delivery_id(&Reply::Rows(vec![])), None);
    assert_eq!(read_delivery_id(&Reply::Rows(vec![Row { columns: vec![] }])), None);
    assert_eq!(read_delivery_id(&Reply::Done), None);
    assert_eq!(
        read_delivery_id(&Reply::Failed(failure(StorageErrorKind::Statement, "no"))),
        None
    );
}

#[test]
fn save_from_a_place_beyond_the_items_is_done() {
    let o = order(vec![item(1)]);
    assert_eq!(save_order(&o, SaveProgress::Item { index: 1 }, Reply::Done), SaveStep::Saved);
    assert_eq!(save_order(&o, SaveProgress::Link { index: 0 }, Reply::Done), SaveStep::Saved);
    assert_eq!(save_order(&o, SaveProgress::Link { index: 9 }, Reply::Done), SaveStep::Saved);
}

#[test]
fn outcome_tells_the_end() {
    let o = order(vec![]);
    assert_eq!(start_save_order(&o).outcome(), None);
    assert_eq!(SaveStep::Saved.outcome(), Some(Ok(())));
    assert_eq!(
        SaveStep::Failed(Error::Unreadable).outcome(),
        Some(Err(Error::Unreadable))
    );
}

#[test]
fn clones_are_equal() {
    let o = order(vec![item(1), item(2)]);
    assert_eq!(o.clone(), o);
    assert_eq!(o.delivery.clone(), o.delivery);
    assert_eq!(o.payment.clone(), o.payment);
    assert_eq!(order_service::model::clone_items(&o.items), o.items);
    let list = vec![order(vec![]), order(vec![item(3)])];
    assert_eq!(order_service::model::clone_orders(&list), list);
}
