use order_service::load::{
    get_all_orders, get_items_for_order, map_delivery, map_item, map_items, map_order,
    map_payment, select_orders, start_get_all_orders, start_get_items_for_order, LoadProgress,
    LoadStep,
};
use order_service::model::{Delivery, Item, Order, Payment};
use order_service::sql::{
    Column, Error, Reply, Row, SqlValue, Statement, StatementKind, StorageError,
    StorageErrorKind,
};

fn text(name: &str, value: &str) -> Column {
    Column { name: name.to_string(), value: SqlValue::Text(value.to_string()) }
}

fn unsigned(name: &str, value: u32) -> Column {
    Column { name: name.to_string(), value: SqlValue::Unsigned(value) }
}

fn order_row(uid: &str, transaction: &str) -> Row {
    Row {
        columns: vec![
            text("order_uid", uid),
            text("track_number", "TRACK"),
            text("entry", "WBIL"),
            text("locale", "en"),
            text("internal_signature", ""),
            text("customer_id", "test"),
            text("delivery_service", "meest"),
            text("shardkey", "9"),
            Column { name: "sm_id".to_string(), value: SqlValue::Int(99) },
            text("date_created", "2021-11-26T06:22:19Z"),
            text("oof_shard", "1"),
            Column { name: "delivery_id".to_string(), value: SqlValue::BigInt(5) },
            text("name", "A"),
            text("phone", "+1"),
            text("zip", "10"),
            text("city", "C"),
            text("address", "Street 1"),
            text("region", "R"),
            text("email", "a@b.c"),
            text("transaction", transaction),
            text("request_id", ""),
            text("currency", "USD"),
            text("provider", "wbpay"),
            unsigned("amount", 1817),
            unsigned("payment_dt", 1637907727),
            text("bank", "alpha"),
            unsigned("delivery_cost", 1500),
            unsigned("goods_total", 317),
            unsigned("custom_fee", 0),
        ],
    }
}

fn expected_delivery() -> Delivery {
    Delivery {
        name: "A".to_string(),
        phone: "+1".to_string(),
        zip: "10".to_string(),
        city: "C".to_string(),
        address: "Street 1".to_string(),
        region: "R".to_string(),
        email: "a@b.c".to_string(),
    }
}

fn expected_payment(transaction: &str) -> Payment {
    Payment {
        transaction: transaction.to_string(),
        request_id: "".to_string(),
        currency: "USD".to_string(),
        provider: "wbpay".to_string(),
        amount: 1817,
        payment_dt: 1637907727,
        bank: "alpha".to_string(),
        delivery_cost: 1500,
        goods_total: 317,
        custom_fee: 0,
    }
}

fn expected_order(uid: &str, transaction: &str, items: Vec<Item>) -> Order {
    Order {
        order_uid: uid.to_string(),
        track_number: "TRACK".to_string(),
        entry: "WBIL".to_string(),
        delivery: expected_delivery(),
        payment: expected_payment(transaction),
        items,
        locale: "en".to_string(),
        internal_signature: "".to_string(),
        customer_id: "test".to_string(),
        delivery_service: "meest".to_string(),
        shardkey: "9".to_string(),
        sm_id: 99,
        date_created: "2021-11-26T06:22:19Z".to_string(),
        oof_shard: "1".to_string(),
    }
}

fn item_row(chrt_id: u32, name: &str) -> Row {
    Row {
        columns: vec![
            unsigned("chrt_id", chrt_id),
            text("track_number", "TRACK"),
            unsigned("price", 453),
            text("rid", "rid-1"),
            text("name", name),
            unsigned("sale", 30),
            text("size", "0"),
            unsigned("total_price", 317),
            unsigned("nm_id", 2389212),
            text("brand", "Vivienne Sabo"),
            unsigned("status", 202),
        ],
    }
}

fn expected_item(chrt_id: u32, name: &str) -> Item {
    Item {
        chrt_id,
        track_number: "TRACK".to_string(),
        price: 453,
        rid: "rid-1".to_string(),
        name: name.to_string(),
        sale: 30,
        size: "0".to_string(),
        total_price: 317,
        nm_id: 2389212,
        brand: "Vivienne Sabo".to_string(),
        status: 202,
    }
}

fn without(row: Row, name: &str) -> Row {
    Row { columns: row.columns.into_iter().filter(|c| c.name != name).collect() }
}

fn failure(message: &str) -> StorageError {
    StorageError { kind: StorageErrorKind::Connection, message: message.to_string() }
}

/// Drives a reading to its end with the replies given, and says what was sent.
fn drive(replies: Vec<Reply>) -> (Vec<Statement>, LoadStep) {
    let mut sent = Vec::new();
    let mut step = start_get_all_orders();
    for reply in replies {
        match step {
            LoadStep::Send { progress, statement } => {
                sent.push(statement);
                step = get_all_orders(progress, reply);
            }
            end => return (sent, end),
        }
    }
    if let LoadStep::Send { statement, .. } = &step {
        sent.push(Statement { kind: statement.kind, params: statement.params.clone() });
    }
    (sent, step)
}

#[test]
fn row_lookup_takes_the_first_column_of_a_name() {
    let row = Row {
        columns: vec![
            text("name", "first"),
            text("name", "second"),
            unsigned("n", 7),
            Column { name: "i".to_string(), value: SqlValue::Int(-3) },
            Column { name: "nothing".to_string(), value: SqlValue::Null },
        ],
    };
    assert_eq!(row.value("name"), Some(&SqlValue::Text("first".to_string())));
    assert_eq!(row.text("name"), Some("first".to_string()));
    assert_eq!(row.unsigned("n"), Some(7));
    assert_eq!(row.integer("i"), Some(-3));
    assert_eq!(row.value("Name"), None);
    assert_eq!(row.text("n"), None);
    assert_eq!(row.unsigned("name"), None);
    assert_eq!(row.integer("n"), None);
    assert_eq!(row.text("nothing"), None);
    assert_eq!(row.text("absent"), None);
    assert_eq!(row.leading_big_int(), None);
}

#[test]
fn map_delivery_reads_the_seven_columns() {
    assert_eq!(map_delivery(&order_row("o1", "t1")), Some(expected_delivery()));
}

#[test]
fn map_delivery_needs_every_column() {
    for name in ["name", "phone", "zip", "city", "address", "region", "email"] {
        assert_eq!(map_delivery(&without(order_row("o1", "t1"), name)), None);
    }
}

#[test]
fn map_payment_reads_the_ten_columns() {
    assert_eq!(map_payment(&order_row("o1", "t1")), Some(expected_payment("t1")));
}

#[test]
fn map_payment_needs_every_column() {
    for name in [
        "transaction",
        "request_id",
        "currency",
        "provider",
        "amount",
        "payment_dt",
        "bank",
        "delivery_cost",
        "goods_total",
        "custom_fee",
    ] {
        assert_eq!(map_payment(&without(order_row("o1", "t1"), name)), None);
    }
}

#[test]
fn map_payment_refuses_a_text_for_a_number() {
    let mut row = without(order_row("o1", "t1"), "amount");
    row.columns.push(text("amount", "1817"));
    assert_eq!(map_payment(&row), None);
}

#[test]
fn map_order_reads_a_row_of_the_join() {
    assert_eq!(map_order(&order_row("o1", "t1")), Some(expected_order("o1", "t1", vec![])));
}

#[test]
fn map_order_needs_every_column() {
    for name in [
        "order_uid",
        "track_number",
        "entry",
        "locale",
        "internal_signature",
        "customer_id",
        "delivery_service",
        "shardkey",
        "sm_id",
        "date_created",
        "oof_shard",
        "email",
        "bank",
    ] {
        assert_eq!(map_order(&without(order_row("o1", "t1"), name)), None);
    }
    assert!(map_order(&without(order_row("o1", "t1"), "delivery_id")).is_some());
}

#[test]
fn map_item_reads_the_eleven_columns() {
    assert_eq!(map_item(&item_row(100, "Mascaras")), Some(expected_item(100, "Mascaras")));
    for name in [
        "chrt_id",
        "track_number",
        "price",
        "rid",
        "name",
        "sale",
        "size",
        "total_price",
        "nm_id",
        "brand",
        "status",
    ] {
        assert_eq!(map_item(&without(item_row(100, "Mascaras"), name)), None);
    }
}

#[test]
fn map_items_keeps_the_order_of_the_rows() {
    let rows = vec![item_row(3, "c"), item_row(1, "a"), item_row(2, "b")];
    assert_eq!(
        map_items(&rows),
        Some(vec![expected_item(3, "c"), expected_item(1, "a"), expected_item(2, "b")])
    );
    assert_eq!(map_items(&vec![]), Some(vec![]));
    let rows = vec![item_row(3, "c"), without(item_row(1, "a"), "brand")];
    assert_eq!(map_items(&rows), None);
}

#[test]
fn item_query_carries_the_order_uid() {
    let statement = start_get_items_for_order("o1");
    assert_eq!(statement.kind, StatementKind::SelectItems);
    assert_eq!(statement.params, vec![SqlValue::Text("o1".to_string())]);
    let statement = select_orders();
    assert_eq!(statement.kind, StatementKind::SelectOrders);
    assert_eq!(statement.params, vec![]);
}

#[test]
fn no_item_rows_are_no_items() {
    assert_eq!(get_items_for_order(Reply::Rows(vec![])), Ok(vec![]));
}

#[test]
fn get_items_for_order_reads_the_rows() {
    assert_eq!(
        get_items_for_order(Reply::Rows(vec![item_row(100, "a"), item_row(100, "a")])),
        Ok(vec![expected_item(100, "a"), expected_item(100, "a")])
    );
}

#[test]
fn get_items_for_order_hands_the_failure_on() {
    assert_eq!(
        get_items_for_order(Reply::Failed(failure("gone"))),
        Err(Error::Storage(failure("gone")))
    );
    assert_eq!(get_items_for_order(Reply::Done), Err(Error::Unreadable));
    assert_eq!(
        get_items_for_order(Reply::Rows(vec![without(item_row(1, "a"), "price")])),
        Err(Error::Unreadable)
    );
}

#[test]
fn reading_asks_for_the_items_of_each_order_in_turn() {
    let replies = vec![
        Reply::Rows(vec![order_row("o1", "t1"), order_row("o2", "t2")]),
        Reply::Rows(vec![item_row(100, "a")]),
        Reply::Rows(vec![]),
    ];
    let (sent, end) = drive(replies);
    assert_eq!(
        sent,
        vec![select_orders(), start_get_items_for_order("o1"), start_get_items_for_order("o2")]
    );
    assert_eq!(
        end,
        LoadStep::Loaded(vec![
            expected_order("o1", "t1", vec![expected_item(100, "a")]),
            expected_order("o2", "t2", vec![]),
        ])
    );
}

#[test]
fn reading_an_empty_storage_gives_no_orders() {
    let (sent, end) = drive(vec![Reply::Rows(vec![])]);
    assert_eq!(sent, vec![select_orders()]);
    assert_eq!(end, LoadStep::Loaded(vec![]));
}

#[test]
fn reading_stops_at_a_failure() {
    let (sent, end) = drive(vec![Reply::Failed(failure("down"))]);
    assert_eq!(sent.len(), 1);
    assert_eq!(end, LoadStep::Failed(Error::Storage(failure("down"))));

    let replies = vec![
        Reply::Rows(vec![order_row("o1", "t1"), order_row("o2", "t2")]),
        Reply::Failed(failure("lost")),
        Reply::Rows(vec![]),
    ];
    let (sent, end) = drive(replies);
    assert_eq!(sent.len(), 2);
    assert_eq!(end, LoadStep::Failed(Error::Storage(failure("lost"))));
}

#[test]
fn reading_stops_at_a_row_that_holds_no_order() {
    let replies = vec![
        Reply::Rows(vec![order_row("o1", "t1"), without(order_row("o2", "t2"), "entry")]),
        Reply::Rows(vec![]),
        Reply::Rows(vec![]),
    ];
    let (sent, end) = drive(replies);
    assert_eq!(sent, vec![select_orders(), start_get_items_for_order("o1")]);
    assert_eq!(end, LoadStep::Failed(Error::Unreadable));

    let (_, end) = drive(vec![Reply::Done]);
    assert_eq!(end, LoadStep::Failed(Error::Unreadable));
}

#[test]
fn reading_waits_for_each_reply() {
    let (sent, end) = drive(vec![Reply::Rows(vec![order_row("o1", "t1")])]);
    assert_eq!(sent.len(), 2);
    match end {
        LoadStep::Send { progress: LoadProgress::Items { loaded, current, rows, next }, statement } => {
            assert_eq!(loaded, vec![]);
            assert_eq!(current, expected_order("o1", "t1", vec![]));
            assert_eq!(rows, vec![order_row("o1", "t1")]);
            assert_eq!(next, 1);
            assert_eq!(statement, start_get_items_for_order("o1"));
        }
        other => panic!("unexpected step {:?}", other),
    }
}

#[test]
fn load_outcome_tells_the_end() {
    assert_eq!(start_get_all_orders().outcome(), None);
    assert_eq!(LoadStep::Loaded(vec![]).outcome(), Some(Ok(vec![])));
    assert_eq!(LoadStep::Failed(Error::Unreadable).outcome(), Some(Err(Error::Unreadable)));
}
