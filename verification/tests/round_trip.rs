use order_service::load::{get_all_orders, start_get_all_orders, LoadStep};
use order_service::model::{Delivery, Item, Order, Payment};
use order_service::save::{save_order, start_save_order, SaveStep};
use order_service::service::{add_order, get_orders, Body, OrdersState};
use order_service::sql::{
    Column, Error, Reply, Row, SqlValue, Statement, StatementKind, StorageError,
    StorageErrorKind,
};

/// Five tables in memory that answer the library's statements as a relational
/// storage would: deliveries are numbered from 1, a payment's transaction is
/// its key, and the selects join as their texts say.
struct Tables {
    deliveries: Vec<(i64, Vec<SqlValue>)>,
    payments: Vec<Vec<SqlValue>>,
    orders: Vec<Vec<SqlValue>>,
    items: Vec<Vec<SqlValue>>,
    links: Vec<Vec<SqlValue>>,
    log: Vec<StatementKind>,
    reachable: bool,
}

const DELIVERY_COLUMNS: [&str; 7] = ["name", "phone", "zip", "city", "address", "region", "email"];

const PAYMENT_COLUMNS: [&str; 10] = [
    "transaction",
    "request_id",
    "currency",
    "provider",
    "amount",
    "payment_dt",
    "bank",
    "delivery_cost",
    "goods_total",
    "custom_fee",
];

const ORDER_COLUMNS: [&str; 13] = [
    "order_uid",
    "track_number",
    "entry",
    "delivery_id",
    "payment_transaction",
    "locale",
    "internal_signature",
    "customer_id",
    "delivery_service",
    "shardkey",
    "sm_id",
    "date_created",
    "oof_shard",
];

const ITEM_COLUMNS: [&str; 11] = [
    "chrt_id",
    "track_number",
    "price",
    "rid",
    "name",
    "sale",
    "size",
    "total_price",
    "nm_id",
    "brand",
    "status",
];

fn columns(names: &[&str], values: &[SqlValue], skip: &[&str]) -> Vec<Column> {
    names
        .iter()
        .zip(values.iter())
        .filter(|(name, _)| !skip.contains(name))
        .map(|(name, value)| Column { name: name.to_string(), value: value.clone() })
        .collect()
}

impl Tables {
    fn new() -> Tables {
        Tables {
            deliveries: Vec::new(),
            payments: Vec::new(),
            orders: Vec::new(),
            items: Vec::new(),
            links: Vec::new(),
            log: Vec::new(),
            reachable: true,
        }
    }

    fn answer(&mut self, statement: &Statement) -> Reply {
        self.log.push(statement.kind);
        if !self.reachable {
            return Reply::Failed(StorageError {
                kind: StorageErrorKind::Connection,
                message: "connection closed".to_string(),
            });
        }
        let params = statement.params.clone();
        match statement.kind {
            StatementKind::InsertDelivery => {
                let id = self.deliveries.len() as i64 + 1;
                self.deliveries.push((id, params));
                Reply::Rows(vec![Row {
                    columns: vec![Column {
                        name: "delivery_id".to_string(),
                        value: SqlValue::BigInt(id),
                    }],
                }])
            }
            StatementKind::InsertPayment => {
                if self.payments.iter().any(|p| p[0] == params[0]) {
                    return Reply::Failed(StorageError {
                        kind: StorageErrorKind::Constraint,
                        message: "duplicate key value violates unique constraint \"payment_pkey\""
                            .to_string(),
                    });
                }
                self.payments.push(params);
                Reply::Done
            }
            StatementKind::InsertOrder => {
                self.orders.push(params);
                Reply::Done
            }
            StatementKind::InsertItem => {
                self.items.push(params);
                Reply::Done
            }
            StatementKind::InsertOrderItem => {
                self.links.push(params);
                Reply::Done
            }
            StatementKind::SelectOrders => {
                let mut rows = Vec::new();
                for order in &self.orders {
                    for (id, delivery) in &self.deliveries {
                        for payment in &self.payments {
                            if order[3] == SqlValue::BigInt(*id) && order[4] == payment[0] {
                                let mut row =
                                    columns(&ORDER_COLUMNS, order, &["payment_transaction"]);
                                row.extend(columns(&DELIVERY_COLUMNS, delivery, &[]));
                                row.extend(columns(&PAYMENT_COLUMNS, payment, &[]));
                                rows.push(Row { columns: row });
                            }
                        }
                    }
                }
                Reply::Rows(rows)
            }
            StatementKind::SelectItems => {
                let mut rows = Vec::new();
                for item in &self.items {
                    for link in &self.links {
                        if link[0] == params[0] && link[1] == item[0] {
                            rows.push(Row { columns: columns(&ITEM_COLUMNS, item, &[]) });
                        }
                    }
                }
                Reply::Rows(rows)
            }
        }
    }
}

fn save(tables: &mut Tables, order: &Order) -> Result<(), Error> {
    let mut step = start_save_order(order);
    loop {
        match step {
            SaveStep::Send { progress, statement } => {
                let reply = tables.answer(&statement);
                step = save_order(order, progress, reply);
            }
            SaveStep::Saved => return Ok(()),
            SaveStep::Failed(e) => return Err(e),
        }
    }
}

fn load(tables: &mut Tables) -> Result<Vec<Order>, Error> {
    let mut step = start_get_all_orders();
    loop {
        match step {
            LoadStep::Send { progress, statement } => {
                let reply = tables.answer(&statement);
                step = get_all_orders(progress, reply);
            }
            LoadStep::Loaded(orders) => return Ok(orders),
            LoadStep::Failed(e) => return Err(e),
        }
    }
}

fn item(chrt_id: u32, name: &str) -> Item {
    Item {
        chrt_id,
        track_number: "TRACK".to_string(),
        price: 453,
        rid: format!("rid-{}", chrt_id),
        name: name.to_string(),
        sale: 30,
        size: "0".to_string(),
        total_price: 317,
        nm_id: 2389212,
        brand: "Vivienne Sabo".to_string(),
        status: 202,
    }
}

fn order(uid: &str, transaction: &str, items: Vec<Item>) -> Order {
    Order {
        order_uid: uid.to_string(),
        track_number: format!("track-{}", uid),
        entry: "WBIL".to_string(),
        delivery: Delivery {
            name: "A".to_string(),
            phone: "+1".to_string(),
            zip: "10".to_string(),
            city: "C".to_string(),
            address: format!("Street {}", uid),
            region: "R".to_string(),
            email: "a@b.c".to_string(),
        },
        payment: Payment {
            transaction: transaction.to_string(),
            request_id: "".to_string(),
            currency: "USD".to_string(),
            provider: "wbpay".to_string(),
            amount: 1817,
            payment_dt: 1637907727,
            bank: "alpha".to_string(),
            delivery_cost: 1500,
            goods_total: 317,
            custom_fee: 0,
        },
        items,
        locale: "en".to_string(),
        internal_signature: "".to_string(),
        customer_id: "test".to_string(),
        delivery_service: "meest".to_string(),
        shardkey: "9".to_string(),
        sm_id: -99,
        date_created: "2021-11-26T06:22:19Z".to_string(),
        oof_shard: "1".to_string(),
    }
}

fn sorted(mut items: Vec<Item>) -> Vec<Item> {
    items.sort_by(|a, b| a.chrt_id.cmp(&b.chrt_id));
    items
}

#[test]
fn saved_order_is_read_back() {
    let mut tables = Tables::new();
    let o1 = order("o1", "t1", vec![item(100, "Mascaras")]);
    assert_eq!(save(&mut tables, &o1), Ok(()));
    let orders = load(&mut tables).unwrap();
    assert_eq!(orders.len(), 1);
    assert_eq!(orders[0].order_uid, "o1");
    assert_eq!(orders[0].items.len(), 1);
    assert_eq!(orders[0].items[0].chrt_id, 100);
    assert_eq!(orders[0].delivery.name, "A");
    assert_eq!(orders[0].payment.transaction, "t1");
}

#[test]
fn round_trip_keeps_every_field() {
    let mut tables = Tables::new();
    let first = order("o1", "t1", vec![item(3, "c"), item(1, "a"), item(2, "b")]);
    let second = order("o2", "t2", vec![item(10, "x")]);
    assert_eq!(save(&mut tables, &first), Ok(()));
    assert_eq!(save(&mut tables, &second), Ok(()));
    let orders = load(&mut tables).unwrap();
    assert_eq!(orders.len(), 2);
    for (read, written) in orders.iter().zip([&first, &second]) {
        let mut read_without_items = read.clone();
        read_without_items.items = vec![];
        let mut written_without_items = written.clone();
        written_without_items.items = vec![];
        assert_eq!(read_without_items, written_without_items);
        assert_eq!(sorted(read.items.clone()), sorted(written.items.clone()));
    }
}

#[test]
fn order_without_items_is_read_back_without_items() {
    let mut tables = Tables::new();
    let empty = order("o1", "t1", vec![]);
    assert_eq!(save(&mut tables, &empty), Ok(()));
    assert_eq!(tables.log.len(), 3);
    assert_eq!(load(&mut tables), Ok(vec![empty]));
}

#[test]
fn second_payment_with_the_same_transaction_is_refused() {
    let mut tables = Tables::new();
    let first = order("o1", "t1", vec![item(1, "a")]);
    let mut second = order("o2", "t1", vec![item(2, "b")]);
    second.payment.amount = 1;
    assert_eq!(save(&mut tables, &first), Ok(()));
    match save(&mut tables, &second) {
        Err(Error::Storage(e)) => assert_eq!(e.kind, StorageErrorKind::Constraint),
        other => panic!("unexpected result {:?}", other),
    }
    assert_eq!(tables.payments.len(), 1);
    assert_eq!(tables.payments[0][4], SqlValue::Unsigned(1817));
    assert_eq!(load(&mut tables), Ok(vec![first]));
}

#[test]
fn failed_payment_leaves_the_delivery_and_no_order() {
    let mut tables = Tables::new();
    let first = order("o1", "t1", vec![]);
    let second = order("o2", "t1", vec![item(2, "b")]);
    let mut state = OrdersState { orders: vec![] };
    let saved = save(&mut tables, &first);
    add_order(&mut state, first.clone(), saved);
    tables.log.clear();
    let saved = save(&mut tables, &second);
    assert!(saved.is_err());
    let response = add_order(&mut state, second, saved);
    assert_eq!(response.status, 500);
    assert_eq!(tables.log, vec![StatementKind::InsertDelivery, StatementKind::InsertPayment]);
    assert_eq!(tables.orders.len(), 1);
    assert_eq!(tables.deliveries.len(), 2);
    assert!(tables.items.is_empty());
    assert!(tables.links.is_empty());
    assert_eq!(state.orders, vec![first]);
}

#[test]
fn reading_twice_gives_the_same() {
    let mut tables = Tables::new();
    assert_eq!(save(&mut tables, &order("o1", "t1", vec![item(1, "a"), item(2, "b")])), Ok(()));
    assert_eq!(save(&mut tables, &order("o2", "t2", vec![])), Ok(()));
    let once = load(&mut tables);
    let twice = load(&mut tables);
    assert!(once.is_ok());
    assert_eq!(once, twice);
}

#[test]
fn accept_order_with_storage_unreachable() {
    let mut tables = Tables::new();
    tables.reachable = false;
    let mut state = OrdersState { orders: vec![order("o0", "t0", vec![])] };
    let o1 = order("o1", "t1", vec![item(100, "a")]);
    let saved = save(&mut tables, &o1);
    let response = add_order(&mut state, o1, saved);
    assert_eq!(response.status, 500);
    match response.body {
        Body::Text(text) => {
            let parsed: serde_json::Value = serde_json::from_str(&text).unwrap();
            assert_eq!(parsed["success"], serde_json::Value::Bool(false));
            assert_eq!(parsed["message"], serde_json::Value::String("connection closed".to_string()));
        }
        other => panic!("unexpected body {:?}", other),
    }
    assert_eq!(state.orders.len(), 1);
    assert_eq!(tables.log, vec![StatementKind::InsertDelivery]);
}

#[test]
fn service_lists_what_was_found_and_what_was_accepted() {
    let mut tables = Tables::new();
    let o1 = order("o1", "t1", vec![item(1, "a")]);
    assert_eq!(save(&mut tables, &o1), Ok(()));
    let mut state = OrdersState::at_startup(load(&mut tables));
    assert_eq!(state.orders, vec![o1.clone()]);
    let o2 = order("o2", "t2", vec![]);
    let saved = save(&mut tables, &o2);
    let response = add_order(&mut state, o2.clone(), saved);
    assert_eq!(response.status, 200);
    assert_eq!(response.body, Body::Order(o2.clone()));
    tables.log.clear();
    assert_eq!(get_orders(&state).body, Body::Orders(vec![o1, o2]));
    assert!(tables.log.is_empty());
}

#[test]
fn shared_chrt_id_mixes_the_items_of_two_orders() {
    let mut tables = Tables::new();
    let first = order("o1", "t1", vec![item(100, "first")]);
    let second = order("o2", "t2", vec![item(100, "second")]);
    assert_eq!(save(&mut tables, &first), Ok(()));
    assert_eq!(save(&mut tables, &second), Ok(()));
    let orders = load(&mut tables).unwrap();
    assert_eq!(orders[0].items.len(), 2);
    assert_eq!(orders[1].items.len(), 2);
}
