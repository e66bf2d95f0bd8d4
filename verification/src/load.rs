//! The read path: the statements that read orders back, and how their rows
//! become orders.
//!
//! All orders are read with one statement that joins each order's row with its
//! delivery and its payment, and then one more statement per order for its
//! items. Orders come in the order of the join's rows, and an order's items in
//! the order of the item rows: the storage decides both.

use vstd::prelude::*;
use vstd::string::StringExecFns;
use crate::model::{Delivery, DeliveryView, Item, ItemView, Order, OrderView, Payment, PaymentView};
use crate::sql::{
    integer_at, rows_view, text_at, unsigned_at, ColumnView, Error, ErrorView, Reply, ReplyView,
    Row, SqlValue, SqlValueView, Statement, StatementKind, StatementView,
};

verus! {

/// The delivery that a row of the join holds: each field is the text under the
/// column of the field's name. There is none where one of the columns is
/// absent or holds no text.
pub open spec fn delivery_of(row: Seq<ColumnView>) -> Option<DeliveryView> {
    match (
        text_at(row, "name"@),
        text_at(row, "phone"@),
        text_at(row, "zip"@),
        text_at(row, "city"@),
        text_at(row, "address"@),
        text_at(row, "region"@),
        text_at(row, "email"@),
    ) {
        (Some(name), Some(phone), Some(zip), Some(city), Some(address), Some(region), Some(email)) => Some(
            DeliveryView { name, phone, zip, city, address, region, email },
        ),
        _ => None,
    }
}

/// The payment that a row of the join holds: each field is the value under the
/// column of the field's name, a text or an unsigned number as the field is.
pub open spec fn payment_of(row: Seq<ColumnView>) -> Option<PaymentView> {
    match (
        text_at(row, "transaction"@),
        text_at(row, "request_id"@),
        text_at(row, "currency"@),
        text_at(row, "provider"@),
        unsigned_at(row, "amount"@),
        unsigned_at(row, "payment_dt"@),
        text_at(row, "bank"@),
        unsigned_at(row, "delivery_cost"@),
        unsigned_at(row, "goods_total"@),
        unsigned_at(row, "custom_fee"@),
    ) {
        (
            Some(transaction),
            Some(request_id),
            Some(currency),
            Some(provider),
            Some(amount),
            Some(payment_dt),
            Some(bank),
            Some(delivery_cost),
            Some(goods_total),
            Some(custom_fee),
        ) => Some(
            PaymentView {
                transaction,
                request_id,
                currency,
                provider,
                amount,
                payment_dt,
                bank,
                delivery_cost,
                goods_total,
                custom_fee,
            },
        ),
        _ => None,
    }
}

/// The item that a row holds: each field is the value under the column of the
/// field's name.
pub open spec fn item_of(row: Seq<ColumnView>) -> Option<ItemView> {
    match (
        unsigned_at(row, "chrt_id"@),
        text_at(row, "track_number"@),
        unsigned_at(row, "price"@),
        text_at(row, "rid"@),
        text_at(row, "name"@),
        unsigned_at(row, "sale"@),
        text_at(row, "size"@),
        unsigned_at(row, "total_price"@),
        unsigned_at(row, "nm_id"@),
        text_at(row, "brand"@),
        unsigned_at(row, "status"@),
    ) {
        (
            Some(chrt_id),
            Some(track_number),
            Some(price),
            Some(rid),
            Some(name),
            Some(sale),
            Some(size),
            Some(total_price),
            Some(nm_id),
            Some(brand),
            Some(status),
        ) => Some(
            ItemView {
                chrt_id,
                track_number,
                price,
                rid,
                name,
                sale,
                size,
                total_price,
                nm_id,
                brand,
                status,
            },
        ),
        _ => None,
    }
}

/// The fields of an order's own row, as a row of the join holds them.
pub struct OrderFields {
    pub order_uid: Seq<char>,
    pub track_number: Seq<char>,
    pub entry: Seq<char>,
    pub locale: Seq<char>,
    pub internal_signature: Seq<char>,
    pub customer_id: Seq<char>,
    pub delivery_service: Seq<char>,
    pub shardkey: Seq<char>,
    pub sm_id: i32,
    pub date_created: Seq<char>,
    pub oof_shard: Seq<char>,
}

/// The fields of the order's own row: each is the value under the column of the
/// field's name.
pub open spec fn order_fields_of(row: Seq<ColumnView>) -> Option<OrderFields> {
    match (
        text_at(row, "order_uid"@),
        text_at(row, "track_number"@),
        text_at(row, "entry"@),
        text_at(row, "locale"@),
        text_at(row, "internal_signature"@),
        text_at(row, "customer_id"@),
        text_at(row, "delivery_service"@),
        text_at(row, "shardkey"@),
        integer_at(row, "sm_id"@),
        text_at(row, "date_created"@),
        text_at(row, "oof_shard"@),
    ) {
        (
            Some(order_uid),
            Some(track_number),
            Some(entry),
            Some(locale),
            Some(internal_signature),
            Some(customer_id),
            Some(delivery_service),
            Some(shardkey),
            Some(sm_id),
            Some(date_created),
            Some(oof_shard),
        ) => Some(
            OrderFields {
                order_uid,
                track_number,
                entry,
                locale,
                internal_signature,
                customer_id,
                delivery_service,
                shardkey,
                sm_id,
                date_created,
                oof_shard,
            },
        ),
        _ => None,
    }
}

/// The order that a row of the join holds, without items: its own fields, its
/// delivery and its payment.
pub open spec fn order_of(row: Seq<ColumnView>) -> Option<OrderView> {
    match (delivery_of(row), payment_of(row), order_fields_of(row)) {
        (Some(delivery), Some(payment), Some(own)) => Some(
            OrderView {
                order_uid: own.order_uid,
                track_number: own.track_number,
                entry: own.entry,
                delivery,
                payment,
                items: Seq::empty(),
                locale: own.locale,
                internal_signature: own.internal_signature,
                customer_id: own.customer_id,
                delivery_service: own.delivery_service,
                shardkey: own.shardkey,
                sm_id: own.sm_id,
                date_created: own.date_created,
                oof_shard: own.oof_shard,
            },
        ),
        _ => None,
    }
}

/// The items that a list of rows holds, in the rows' order. There are none
/// where a single row holds no item.
pub open spec fn items_of(rows: Seq<Seq<ColumnView>>) -> Option<Seq<ItemView>> {
    if forall|i: int| 0 <= i < rows.len() ==> (#[trigger] item_of(rows[i])) is Some {
        Some(Seq::new(rows.len(), |i: int| item_of(rows[i])->0))
    } else {
        None
    }
}

/// Reads a delivery from a row of the join.
pub fn map_delivery(row: &Row) -> (delivery: Option<Delivery>)
    ensures
        match delivery {
            Some(d) => delivery_of(row@) == Some(d@),
            None => delivery_of(row@) is None,
        },
{
    let name = row.text("name")?;
    let phone = row.text("phone")?;
    let zip = row.text("zip")?;
    let city = row.text("city")?;
    let address = row.text("address")?;
    let region = row.text("region")?;
    let email = row.text("email")?;
    Some(Delivery { name, phone, zip, city, address, region, email })
}

/// Reads a payment from a row of the join.
pub fn map_payment(row: &Row) -> (payment: Option<Payment>)
    ensures
        match payment {
            Some(p) => payment_of(row@) == Some(p@),
            None => payment_of(row@) is None,
        },
{
    let transaction = row.text("transaction")?;
    let request_id = row.text("request_id")?;
    let currency = row.text("currency")?;
    let provider = row.text("provider")?;
    let amount = row.unsigned("amount")?;
    let payment_dt = row.unsigned("payment_dt")?;
    let bank = row.text("bank")?;
    let delivery_cost = row.unsigned("delivery_cost")?;
    let goods_total = row.unsigned("goods_total")?;
    let custom_fee = row.unsigned("custom_fee")?;
    Some(
        Payment {
            transaction,
            request_id,
            currency,
            provider,
            amount,
            payment_dt,
            bank,
            delivery_cost,
            goods_total,
            custom_fee,
        },
    )
}

/// Reads an item from a row.
pub fn map_item(row: &Row) -> (item: Option<Item>)
    ensures
        match item {
            Some(i) => item_of(row@) == Some(i@),
            None => item_of(row@) is None,
        },
{
    let chrt_id = row.unsigned("chrt_id")?;
    let track_number = row.text("track_number")?;
    let price = row.unsigned("price")?;
    let rid = row.text("rid")?;
    let name = row.text("name")?;
    let sale = row.unsigned("sale")?;
    let size = row.text("size")?;
    let total_price = row.unsigned("total_price")?;
    let nm_id = row.unsigned("nm_id")?;
    let brand = row.text("brand")?;
    let status = row.unsigned("status")?;
    Some(
        Item {
            chrt_id,
            track_number,
            price,
            rid,
            name,
            sale,
            size,
            total_price,
            nm_id,
            brand,
            status,
        },
    )
}

/// Reads an order from a row of the join. Its items are read separately: the
/// order comes back with none.
pub fn map_order(row: &Row) -> (order: Option<Order>)
    ensures
        match order {
            Some(o) => order_of(row@) == Some(o@),
            None => order_of(row@) is None,
        },
{
    let delivery = map_delivery(row)?;
    let payment = map_payment(row)?;
    let order_uid = row.text("order_uid")?;
    let track_number = row.text("track_number")?;
    let entry = row.text("entry")?;
    let locale = row.text("locale")?;
    let internal_signature = row.text("internal_signature")?;
    let customer_id = row.text("customer_id")?;
    let delivery_service = row.text("delivery_service")?;
    let shardkey = row.text("shardkey")?;
    let sm_id = row.integer("sm_id")?;
    let date_created = row.text("date_created")?;
    let oof_shard = row.text("oof_shard")?;
    let order = Order {
        order_uid,
        track_number,
        entry,
        delivery,
        payment,
        items: Vec::new(),
        locale,
        internal_signature,
        customer_id,
        delivery_service,
        shardkey,
        sm_id,
        date_created,
        oof_shard,
    };
    assert(order@.items =~= Seq::empty());
    Some(order)
}

/// Reads the items of a list of rows, in the rows' order.
pub fn map_items(rows: &Vec<Row>) -> (items: Option<Vec<Item>>)
    ensures
        match items {
            Some(list) => items_of(rows_view(rows@)) == Some(crate::model::items_view(list@)),
            None => items_of(rows_view(rows@)) is None,
        },
{
    let ghost views = rows_view(rows@);
    let mut items: Vec<Item> = Vec::new();
    let mut i: usize = 0;
    while i < rows.len()
        invariant
            i <= rows.len(),
            views == rows_view(rows@),
            items@.len() == i,
            forall|k: int| 0 <= k < i ==> (#[trigger] item_of(views[k])) == Some(items@[k]@),
        decreases rows.len() - i,
    {
        match map_item(&rows[i]) {
            Some(item) => {
                items.push(item);
            },
            None => {
                assert(item_of(views[i as int]) is None);
                return None;
            },
        }
        i += 1;
    }
    assert(items_of(views)->0 =~= crate::model::items_view(items@));
    Some(items)
}

/// The statement that reads every order, joined with its delivery and its payment.
pub open spec fn orders_statement() -> StatementView {
    StatementView { kind: StatementKind::SelectOrders, params: Seq::empty() }
}

/// The statement that reads the items linked to the order called `order_uid`.
pub open spec fn items_statement(order_uid: Seq<char>) -> StatementView {
    StatementView { kind: StatementKind::SelectItems, params: seq![SqlValueView::Text(order_uid)] }
}

/// What the reply to an item query amounts to: the storage's failure as it
/// came, or the items of the reply's rows. No rows are no items, and no error.
/// A reply without rows of any kind, or with a row that holds no item, cannot
/// be read.
pub open spec fn items_result(reply: ReplyView) -> Result<Seq<ItemView>, ErrorView> {
    match reply {
        ReplyView::Failed(e) => Err(ErrorView::Storage(e)),
        ReplyView::Done => Err(ErrorView::Unreadable),
        ReplyView::Rows(rows) => match items_of(rows) {
            Some(items) => Ok(items),
            None => Err(ErrorView::Unreadable),
        },
    }
}

/// Builds the statement that reads every order.
pub fn select_orders() -> (statement: Statement)
    ensures
        statement@ == orders_statement(),
{
    let statement = Statement { kind: StatementKind::SelectOrders, params: Vec::new() };
    assert(statement@.params =~= orders_statement().params);
    statement
}

/// Begins to read the items of the order called `order_uid`: builds the
/// statement to send. Its reply goes to `get_items_for_order`.
pub fn start_get_items_for_order(order_uid: &str) -> (statement: Statement)
    ensures
        statement@ == items_statement(order_uid@),
{
    let params = vec![SqlValue::Text(String::from_str(order_uid))];
    let statement = Statement { kind: StatementKind::SelectItems, params };
    assert(statement@.params =~= items_statement(order_uid@).params);
    statement
}

/// Reads the items of an order from the storage's reply to the statement of
/// `start_get_items_for_order`. Nothing is written anywhere.
pub fn get_items_for_order(reply: Reply) -> (items: Result<Vec<Item>, Error>)
    ensures
        match items {
            Ok(list) => items_result(reply@) == Ok::<Seq<ItemView>, ErrorView>(
                crate::model::items_view(list@),
            ),
            Err(e) => items_result(reply@) == Err::<Seq<ItemView>, ErrorView>(e@),
        },
{
    match reply {
        Reply::Failed(e) => Err(Error::Storage(e)),
        Reply::Done => Err(Error::Unreadable),
        Reply::Rows(rows) => match map_items(&rows) {
            Some(list) => Ok(list),
            None => Err(Error::Unreadable),
        },
    }
}

/// The statement that was sent last while all orders are read, with what was
/// read so far.
#[derive(Debug, PartialEq, Eq)]
pub enum LoadProgress {
    /// The join of orders, deliveries and payments.
    Orders,
    /// The item query for `current`.
    Items {
        /// The orders read so far, complete with their items.
        loaded: Vec<Order>,
        /// The order whose items are awaited.
        current: Order,
        /// The rows of the join.
        rows: Vec<Row>,
        /// The place in `rows` of the order that follows `current`.
        next: usize,
    },
}

pub enum LoadProgressView {
    Orders,
    Items { loaded: Seq<OrderView>, current: OrderView, rows: Seq<Seq<ColumnView>>, next: int },
}

impl View for LoadProgress {
    type V = LoadProgressView;

    open spec fn view(&self) -> LoadProgressView {
        match self {
            LoadProgress::Orders => LoadProgressView::Orders,
            LoadProgress::Items { loaded, current, rows, next } => LoadProgressView::Items {
                loaded: crate::model::orders_view(loaded@),
                current: current@,
                rows: rows_view(rows@),
                next: *next as int,
            },
        }
    }
}

/// What to do next while all orders are read.
#[derive(Debug, PartialEq, Eq)]
pub enum LoadStep {
    /// Send `statement` to the storage, then call `get_all_orders` with
    /// `progress` and the storage's reply.
    Send { progress: LoadProgress, statement: Statement },
    /// All orders were read: here they are, in the order of the join's rows.
    Loaded(Vec<Order>),
    /// A statement failed, or its reply could not be read.
    Failed(Error),
}

pub enum LoadStepView {
    Send { progress: LoadProgressView, statement: StatementView },
    Loaded(Seq<OrderView>),
    Failed(ErrorView),
}

impl View for LoadStep {
    type V = LoadStepView;

    open spec fn view(&self) -> LoadStepView {
        match self {
            LoadStep::Send { progress, statement } => LoadStepView::Send {
                progress: progress@,
                statement: statement@,
            },
            LoadStep::Loaded(orders) => LoadStepView::Loaded(crate::model::orders_view(orders@)),
            LoadStep::Failed(e) => LoadStepView::Failed(e@),
        }
    }
}

/// The first step of reading all orders: the join is sent.
pub open spec fn load_first() -> LoadStepView {
    LoadStepView::Send { progress: LoadProgressView::Orders, statement: orders_statement() }
}

/// The step that turns to the row at `next`: the row is read as an order and
/// the order's items are asked for, or the work ends where no row is left.
pub open spec fn load_turn_to(
    loaded: Seq<OrderView>,
    rows: Seq<Seq<ColumnView>>,
    next: int,
) -> LoadStepView {
    if 0 <= next < rows.len() {
        match order_of(rows[next]) {
            Some(current) => LoadStepView::Send {
                progress: LoadProgressView::Items {
                    loaded,
                    current,
                    rows,
                    next: next + 1,
                },
                statement: items_statement(current.order_uid),
            },
            None => LoadStepView::Failed(ErrorView::Unreadable),
        }
    } else {
        LoadStepView::Loaded(loaded)
    }
}

/// `order` with `items` for its items.
pub open spec fn with_items(order: OrderView, items: Seq<ItemView>) -> OrderView {
    OrderView { items, ..order }
}

/// The step that follows `reply`, the storage's answer to the statement that
/// `progress` names.
///
/// The join's rows are kept, and read one by one. The items that come back for
/// an order complete it, and the next row is turned to.
pub open spec fn load_next(progress: LoadProgressView, reply: ReplyView) -> LoadStepView {
    match progress {
        LoadProgressView::Orders => match reply {
            ReplyView::Failed(e) => LoadStepView::Failed(ErrorView::Storage(e)),
            ReplyView::Done => LoadStepView::Failed(ErrorView::Unreadable),
            ReplyView::Rows(rows) => load_turn_to(Seq::empty(), rows, 0),
        },
        LoadProgressView::Items { loaded, current, rows, next } => match items_result(reply) {
            Ok(items) => load_turn_to(loaded.push(with_items(current, items)), rows, next),
            Err(e) => LoadStepView::Failed(e),
        },
    }
}

fn turn_to(loaded: Vec<Order>, rows: Vec<Row>, next: usize) -> (step: LoadStep)
    ensures
        step@ == load_turn_to(crate::model::orders_view(loaded@), rows_view(rows@), next as int),
{
    if next < rows.len() {
        match map_order(&rows[next]) {
            Some(current) => {
                let statement = start_get_items_for_order(current.order_uid.as_str());
                LoadStep::Send {
                    progress: LoadProgress::Items { loaded, current, rows, next: next + 1 },
                    statement,
                }
            },
            None => LoadStep::Failed(Error::Unreadable),
        }
    } else {
        LoadStep::Loaded(loaded)
    }
}

/// Begins to read all orders: the first statement to send is the join.
pub fn start_get_all_orders() -> (step: LoadStep)
    ensures
        step@ == load_first(),
{
    LoadStep::Send { progress: LoadProgress::Orders, statement: select_orders() }
}

/// Goes on reading all orders after the storage has answered the statement that
/// `progress` names with `reply`.
///
/// Each row of the join gives one order, and one item query is sent for each
/// of them, in the rows' order. The result holds the orders in that order,
/// each with the items that its query gave. A failure of the storage ends the
/// work with that failure, unchanged.
pub fn get_all_orders(progress: LoadProgress, reply: Reply) -> (step: LoadStep)
    ensures
        step@ == load_next(progress@, reply@),
{
    match progress {
        LoadProgress::Orders => match reply {
            Reply::Failed(e) => LoadStep::Failed(Error::Storage(e)),
            Reply::Done => LoadStep::Failed(Error::Unreadable),
            Reply::Rows(rows) => {
                let loaded: Vec<Order> = Vec::new();
                assert(crate::model::orders_view(loaded@) =~= Seq::empty());
                turn_to(loaded, rows, 0)
            },
        },
        LoadProgress::Items { loaded, current, rows, next } => match get_items_for_order(reply) {
            Ok(items) => {
                let mut loaded = loaded;
                let mut current = current;
                let ghost before = crate::model::orders_view(loaded@);
                let ghost head = current@;
                current.items = items;
                assert(current@ == with_items(head, crate::model::items_view(items@)));
                loaded.push(current);
                assert(crate::model::orders_view(loaded@) =~= before.push(current@));
                turn_to(loaded, rows, next)
            },
            Err(e) => LoadStep::Failed(e),
        },
    }
}

impl LoadStep {
    /// How the work ended, where it has ended.
    pub open spec fn spec_outcome(step: LoadStepView) -> Option<Result<Seq<OrderView>, ErrorView>> {
        match step {
            LoadStepView::Send { .. } => None,
            LoadStepView::Loaded(orders) => Some(Ok(orders)),
            LoadStepView::Failed(e) => Some(Err(e)),
        }
    }

    /// How the work ended: `None` while a statement is still to be sent.
    pub fn outcome(self) -> (outcome: Option<Result<Vec<Order>, Error>>)
        ensures
            match outcome {
                None => Self::spec_outcome(self@) is None,
                Some(Ok(orders)) => Self::spec_outcome(self@) == Some(
                    Ok::<Seq<OrderView>, ErrorView>(crate::model::orders_view(orders@)),
                ),
                Some(Err(e)) => Self::spec_outcome(self@) == Some(
                    Err::<Seq<OrderView>, ErrorView>(e@),
                ),
            },
    {
        match self {
            LoadStep::Send { .. } => None,
            LoadStep::Loaded(orders) => Some(Ok(orders)),
            LoadStep::Failed(e) => Some(Err(e)),
        }
    }
}

/// What was sent in the course of some reading, and where the reading stands.
pub struct LoadTrace {
    /// The statements that were sent, the first one first.
    pub sent: Seq<StatementView>,
    /// The step that the last reply led to.
    pub end: LoadStepView,
}

/// The course of the reading from `step` on, where the storage answers the
/// statements one after the other with `replies`. Replies that come after the
/// reading has ended are not looked at.
pub open spec fn load_trace(step: LoadStepView, replies: Seq<ReplyView>) -> LoadTrace
    decreases replies.len(),
{
    match step {
        LoadStepView::Send { progress, statement } => if replies.len() == 0 {
            LoadTrace { sent: seq![statement], end: step }
        } else {
            let rest = load_trace(load_next(progress, replies[0]), replies.drop_first());
            LoadTrace { sent: seq![statement] + rest.sent, end: rest.end }
        },
        _ => LoadTrace { sent: Seq::empty(), end: step },
    }
}

/// The course of reading all orders from the start.
pub open spec fn load_run(replies: Seq<ReplyView>) -> LoadTrace {
    load_trace(load_first(), replies)
}

/// The place of the first row that holds no order, or the number of rows where
/// each holds one.
pub open spec fn first_unreadable(rows: Seq<Seq<ColumnView>>) -> int
    decreases rows.len(),
{
    if rows.len() == 0 || order_of(rows[0]) is None {
        0
    } else {
        1 + first_unreadable(rows.drop_first())
    }
}

/// The place of the first reply that gives no items, or the number of replies
/// where each gives some.
pub open spec fn first_without_items(replies: Seq<ReplyView>) -> int
    decreases replies.len(),
{
    if replies.len() == 0 || items_result(replies[0]) is Err {
        0
    } else {
        1 + first_without_items(replies.drop_first())
    }
}

/// The item query for the order of the row at `i`.
pub open spec fn item_query(rows: Seq<Seq<ColumnView>>, i: int) -> StatementView {
    items_statement(order_of(rows[i])->0.order_uid)
}

/// The order of the row at `i`, with the items that `reply` gives.
pub open spec fn order_read(rows: Seq<Seq<ColumnView>>, i: int, reply: ReplyView) -> OrderView {
    with_items(order_of(rows[i])->0, items_result(reply)->Ok_0)
}

/// The orders of `rows`, the order of the row at `i` with the items that the
/// reply at `i` gives.
pub open spec fn orders_read(rows: Seq<Seq<ColumnView>>, item_replies: Seq<ReplyView>) -> Seq<
    OrderView,
> {
    Seq::new(rows.len(), |i: int| order_read(rows, i, item_replies[i]))
}

/// `first_unreadable` is the place of a row that holds no order, and every row
/// before it holds one.
pub proof fn lemma_orders_before_first_unreadable(rows: Seq<Seq<ColumnView>>)
    ensures
        0 <= first_unreadable(rows) <= rows.len(),
        first_unreadable(rows) < rows.len() ==> order_of(rows[first_unreadable(rows)]) is None,
        forall|i: int| 0 <= i < first_unreadable(rows) ==> (#[trigger] order_of(rows[i])) is Some,
    decreases rows.len(),
{
    if rows.len() == 0 || order_of(rows[0]) is None {
    } else {
        let rest = rows.drop_first();
        lemma_orders_before_first_unreadable(rest);
        assert forall|i: int| 0 <= i < first_unreadable(rows) implies (#[trigger] order_of(
            rows[i],
        )) is Some by {
            if i > 0 {
                assert(rows[i] == rest[i - 1]);
            }
        }
    }
}

/// `first_without_items` is the place of a reply that gives no items, and every
/// reply before it gives some.
pub proof fn lemma_items_before_first_without(replies: Seq<ReplyView>)
    ensures
        0 <= first_without_items(replies) <= replies.len(),
        first_without_items(replies) < replies.len() ==> items_result(
            replies[first_without_items(replies)],
        ) is Err,
        forall|j: int|
            0 <= j < first_without_items(replies) ==> (#[trigger] items_result(replies[j])) is Ok,
    decreases replies.len(),
{
    if replies.len() == 0 || items_result(replies[0]) is Err {
    } else {
        let rest = replies.drop_first();
        lemma_items_before_first_without(rest);
        assert forall|j: int| 0 <= j < first_without_items(replies) implies (#[trigger] items_result(
            replies[j],
        )) is Ok by {
            if j > 0 {
                assert(replies[j] == rest[j - 1]);
            }
        }
    }
}

proof fn lemma_load_tail(
    rows: Seq<Seq<ColumnView>>,
    loaded: Seq<OrderView>,
    k: int,
    replies: Seq<ReplyView>,
)
    requires
        0 <= k < first_unreadable(rows),
    ensures
        ({
            let b = first_unreadable(rows);
            let g = first_without_items(replies);
            let asked = if g + 1 <= b - k { g + 1 } else { b - k };
            let trace = load_trace(
                LoadStepView::Send {
                    progress: LoadProgressView::Items {
                        loaded,
                        current: order_of(rows[k])->0,
                        rows,
                        next: k + 1,
                    },
                    statement: item_query(rows, k),
                },
                replies,
            );
            &&& 0 <= g <= replies.len()
            &&& trace.sent == Seq::new(asked as nat, |j: int| item_query(rows, k + j))
            &&& g >= b - k && b == rows.len() ==> trace.end == LoadStepView::Loaded(
                loaded + Seq::new((b - k) as nat, |j: int| order_read(rows, k + j, replies[j])),
            )
            &&& g >= b - k && b < rows.len() ==> trace.end == LoadStepView::Failed(
                ErrorView::Unreadable,
            )
            &&& g < b - k && g < replies.len() ==> items_result(replies[g]) is Err && trace.end
                == LoadStepView::Failed(items_result(replies[g])->Err_0)
            &&& g < b - k && g == replies.len() ==> trace.end is Send && trace.end->statement
                == item_query(rows, k + g)
        }),
    decreases replies.len(),
{
    reveal_with_fuel(load_trace, 2);
    let b = first_unreadable(rows);
    let g = first_without_items(replies);
    let asked = if g + 1 <= b - k { g + 1 } else { b - k };
    let progress = LoadProgressView::Items {
        loaded,
        current: order_of(rows[k])->0,
        rows,
        next: k + 1,
    };
    let trace = load_trace(
        LoadStepView::Send { progress, statement: item_query(rows, k) },
        replies,
    );
    lemma_orders_before_first_unreadable(rows);
    lemma_items_before_first_without(replies);
    let asked_queries = Seq::new(asked as nat, |j: int| item_query(rows, k + j));
    if replies.len() == 0 || items_result(replies[0]) is Err {
        assert(trace.sent =~= asked_queries);
    } else {
        let rest = replies.drop_first();
        lemma_items_before_first_without(rest);
        assert(g == 1 + first_without_items(rest));
        let first = order_read(rows, k, replies[0]);
        let next = load_next(progress, replies[0]);
        assert(next == load_turn_to(loaded.push(first), rows, k + 1));
        if k + 1 < b {
            assert(order_of(rows[k + 1]) is Some);
            lemma_load_tail(rows, loaded.push(first), k + 1, rest);
            assert(trace.sent =~= asked_queries);
            if g >= b - k && b == rows.len() {
                assert(loaded.push(first) + Seq::new(
                    (b - k - 1) as nat,
                    |j: int| order_read(rows, k + 1 + j, rest[j]),
                ) =~= loaded + Seq::new(
                    (b - k) as nat,
                    |j: int| order_read(rows, k + j, replies[j]),
                ));
            }
            if g < b - k && g < replies.len() {
                assert(replies[g] == rest[g - 1]);
            }
        } else {
            assert(trace.sent =~= asked_queries);
            if b == rows.len() {
                assert(loaded.push(first) =~= loaded + Seq::new(
                    (b - k) as nat,
                    |j: int| order_read(rows, k + j, replies[j]),
                ));
            }
        }
    }
}

/// The course of reading all orders, for every way in which the storage may answer.
///
/// Where the first reply is a failure, the reading ends with that failure,
/// unchanged; where it holds no rows at all, it cannot be read. Otherwise let
/// `b` be the number of rows before the first that holds no order, and `g` the
/// number of following replies before the first that gives no items. One item
/// query is sent for each row in turn, as long as its row holds an order and
/// every reply before it gave items. Where every row holds an order and each
/// query was answered with items, the result is the orders of the rows, in the
/// rows' order, each with the items of its own reply, in the reply's order.
pub proof fn lemma_load_follows_the_rows(replies: Seq<ReplyView>)
    requires
        replies.len() > 0,
    ensures
        ({
            let run = load_run(replies);
            match replies[0] {
                ReplyView::Failed(e) => run.sent == seq![orders_statement()] && run.end
                    == LoadStepView::Failed(ErrorView::Storage(e)),
                ReplyView::Done => run.sent == seq![orders_statement()] && run.end
                    == LoadStepView::Failed(ErrorView::Unreadable),
                ReplyView::Rows(rows) => {
                    let item_replies = replies.drop_first();
                    let b = first_unreadable(rows);
                    let g = first_without_items(item_replies);
                    let asked = if g + 1 <= b { g + 1 } else { b };
                    &&& 0 <= b <= rows.len()
                    &&& 0 <= g <= item_replies.len()
                    &&& run.sent == seq![orders_statement()] + Seq::new(
                        asked as nat,
                        |j: int| item_query(rows, j),
                    )
                    &&& g >= b && b == rows.len() ==> run.end == LoadStepView::Loaded(
                        orders_read(rows, item_replies),
                    )
                    &&& g >= b && b < rows.len() ==> run.end == LoadStepView::Failed(
                        ErrorView::Unreadable,
                    )
                    &&& g < b && g < item_replies.len() ==> items_result(item_replies[g]) is Err
                        && run.end == LoadStepView::Failed(items_result(item_replies[g])->Err_0)
                    &&& g < b && g == item_replies.len() ==> run.end is Send && run.end->statement
                        == item_query(rows, g)
                },
            }
        }),
{
    reveal_with_fuel(load_trace, 2);
    let run = load_run(replies);
    match replies[0] {
        ReplyView::Failed(e) => {
            assert(run.sent =~= seq![orders_statement()]);
        },
        ReplyView::Done => {
            assert(run.sent =~= seq![orders_statement()]);
        },
        ReplyView::Rows(rows) => {
            let item_replies = replies.drop_first();
            let b = first_unreadable(rows);
            let g = first_without_items(item_replies);
            let asked = if g + 1 <= b { g + 1 } else { b };
            lemma_orders_before_first_unreadable(rows);
            lemma_items_before_first_without(item_replies);
            let queries = Seq::new(asked as nat, |j: int| item_query(rows, j));
            if b == 0 {
                assert(run.sent =~= seq![orders_statement()] + queries);
                if rows.len() == 0 {
                    assert(orders_read(rows, item_replies) =~= Seq::empty());
                }
            } else {
                assert(order_of(rows[0]) is Some);
                lemma_load_tail(rows, Seq::empty(), 0, item_replies);
                let tail = load_trace(
                    load_next(LoadProgressView::Orders, replies[0]),
                    item_replies,
                );
                assert(tail.sent =~= queries);
                assert(run.sent =~= seq![orders_statement()] + queries);
                if g >= b && b == rows.len() {
                    assert(Seq::<OrderView>::empty() + Seq::new(
                        b as nat,
                        |j: int| order_read(rows, 0 + j, item_replies[j]),
                    ) =~= orders_read(rows, item_replies));
                }
            }
        },
    }
}

} // verus!
