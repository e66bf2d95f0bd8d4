//! What the library takes the storage to do, and what follows from it.
//!
//! The storage is five tables. This module describes them as plain sequences
//! of rows and says, for each of the seven statements, which replies the
//! storage may give in a given state and what state it is in afterwards:
//!
//! - a statement that fails leaves every table as it was;
//! - an insert that is accepted adds its row at the end of its table;
//! - the storage gives each new delivery a number that no stored delivery has;
//! - a payment whose transaction is stored already is never accepted, and the
//!   failure is a broken constraint;
//! - the two selects change nothing, and in one state they always give the
//!   same orders and the same items.
//!
//! Whether the storage refuses an item whose `chrt_id` is stored already is
//! left open: both answers are admitted. Nothing here is executable. The
//! laws at the end of the module are proved for every storage that behaves as
//! described.

use vstd::prelude::*;
use crate::load::{
    delivery_of, first_unreadable, first_without_items, item_of, item_query, items_of,
    items_result, items_statement, lemma_items_before_first_without,
    lemma_load_follows_the_rows, lemma_orders_before_first_unreadable, load_run, order_fields_of,
    order_of, orders_read, orders_statement, payment_of, with_items, LoadStepView, OrderFields,
};
use crate::model::{DeliveryView, ItemView, OrderView, PaymentView};
use crate::save::{
    delivery_statement, first_failure, item_statement, lemma_accepted_before_first_failure,
    lemma_save_follows_the_plan, lemma_save_needs_the_delivery_id, new_delivery_id,
    order_item_statement, order_statement, payment_statement, save_plan, save_run, SaveStepView,
};
use crate::sql::{
    find_from, ColumnView, ErrorView, ReplyView, SqlValueView, StatementKind, StatementView,
    StorageErrorKind,
};

verus! {

/// A delivery as the storage holds it: with the number it was given.
pub struct StoredDelivery {
    pub id: i64,
    pub delivery: DeliveryView,
}

/// An order's own row as the storage holds it. It names its delivery by the
/// delivery's number and its payment by the payment's transaction.
pub struct StoredOrder {
    pub own: OrderFields,
    pub delivery_id: i64,
    pub transaction: Seq<char>,
}

/// A row that links an item to an order.
pub struct StoredLink {
    pub order_uid: Seq<char>,
    pub chrt_id: u32,
}

/// The five tables, each with its rows in the order in which they were inserted.
pub struct Storage {
    pub deliveries: Seq<StoredDelivery>,
    pub payments: Seq<PaymentView>,
    pub orders: Seq<StoredOrder>,
    pub items: Seq<ItemView>,
    pub links: Seq<StoredLink>,
}

/// The text at place `i` of a parameter list.
pub open spec fn text_param(params: Seq<SqlValueView>, i: int) -> Option<Seq<char>> {
    if 0 <= i < params.len() {
        match params[i] {
            SqlValueView::Text(t) => Some(t),
            _ => None,
        }
    } else {
        None
    }
}

/// The unsigned number at place `i` of a parameter list.
pub open spec fn unsigned_param(params: Seq<SqlValueView>, i: int) -> Option<u32> {
    if 0 <= i < params.len() {
        match params[i] {
            SqlValueView::Unsigned(n) => Some(n),
            _ => None,
        }
    } else {
        None
    }
}

/// The 32-bit integer at place `i` of a parameter list.
pub open spec fn integer_param(params: Seq<SqlValueView>, i: int) -> Option<i32> {
    if 0 <= i < params.len() {
        match params[i] {
            SqlValueView::Int(n) => Some(n),
            _ => None,
        }
    } else {
        None
    }
}

/// The 64-bit integer at place `i` of a parameter list.
pub open spec fn big_int_param(params: Seq<SqlValueView>, i: int) -> Option<i64> {
    if 0 <= i < params.len() {
        match params[i] {
            SqlValueView::BigInt(n) => Some(n),
            _ => None,
        }
    } else {
        None
    }
}

/// The delivery that a delivery insert carries in its seven parameters.
pub open spec fn delivery_in(statement: StatementView) -> Option<DeliveryView> {
    let p = statement.params;
    if statement.kind == StatementKind::InsertDelivery && p.len() == 7 {
        match (
            text_param(p, 0),
            text_param(p, 1),
            text_param(p, 2),
            text_param(p, 3),
            text_param(p, 4),
            text_param(p, 5),
            text_param(p, 6),
        ) {
            (
                Some(name),
                Some(phone),
                Some(zip),
                Some(city),
                Some(address),
                Some(region),
                Some(email),
            ) => Some(DeliveryView { name, phone, zip, city, address, region, email }),
            _ => None,
        }
    } else {
        None
    }
}

/// The payment that a payment insert carries in its ten parameters.
pub open spec fn payment_in(statement: StatementView) -> Option<PaymentView> {
    let p = statement.params;
    if statement.kind == StatementKind::InsertPayment && p.len() == 10 {
        match (
            text_param(p, 0),
            text_param(p, 1),
            text_param(p, 2),
            text_param(p, 3),
            unsigned_param(p, 4),
            unsigned_param(p, 5),
            text_param(p, 6),
            unsigned_param(p, 7),
            unsigned_param(p, 8),
            unsigned_param(p, 9),
        ) {
            (
                Some(transaction),
                Some(request_id),
                Some(currency),
                Some(provider),
                Some(amount),
                Some(payment_dt),
                Some(bank),
                Some(delivery_cost),
                Some(goods_total),
                Some(custom_fee),
            ) => Some(
                PaymentView {
                    transaction,
                    request_id,
                    currency,
                    provider,
                    amount,
                    payment_dt,
                    bank,
                    delivery_cost,
                    goods_total,
                    custom_fee,
                },
            ),
            _ => None,
        }
    } else {
        None
    }
}

/// The order's row that an order insert carries in its thirteen parameters.
pub open spec fn order_in(statement: StatementView) -> Option<StoredOrder> {
    let p = statement.params;
    if statement.kind == StatementKind::InsertOrder && p.len() == 13 {
        match (
            text_param(p, 0),
            text_param(p, 1),
            text_param(p, 2),
            big_int_param(p, 3),
            text_param(p, 4),
            text_param(p, 5),
            text_param(p, 6),
            text_param(p, 7),
            text_param(p, 8),
            text_param(p, 9),
            integer_param(p, 10),
            text_param(p, 11),
            text_param(p, 12),
        ) {
            (
                Some(order_uid),
                Some(track_number),
                Some(entry),
                Some(delivery_id),
                Some(transaction),
                Some(locale),
                Some(internal_signature),
                Some(customer_id),
                Some(delivery_service),
                Some(shardkey),
                Some(sm_id),
                Some(date_created),
                Some(oof_shard),
            ) => Some(
                StoredOrder {
                    own: OrderFields {
                        order_uid,
                        track_number,
                        entry,
                        locale,
                        internal_signature,
                        customer_id,
                        delivery_service,
                        shardkey,
                        sm_id,
                        date_created,
                        oof_shard,
                    },
                    delivery_id,
                    transaction,
                },
            ),
            _ => None,
        }
    } else {
        None
    }
}

/// The item that an item insert carries in its eleven parameters.
pub open spec fn item_in(statement: StatementView) -> Option<ItemView> {
    let p = statement.params;
    if statement.kind == StatementKind::InsertItem && p.len() == 11 {
        match (
            unsigned_param(p, 0),
            text_param(p, 1),
            unsigned_param(p, 2),
            text_param(p, 3),
            text_param(p, 4),
            unsigned_param(p, 5),
            text_param(p, 6),
            unsigned_param(p, 7),
            unsigned_param(p, 8),
            text_param(p, 9),
            unsigned_param(p, 10),
        ) {
            (
                Some(chrt_id),
                Some(track_number),
                Some(price),
                Some(rid),
                Some(name),
                Some(sale),
                Some(size),
                Some(total_price),
                Some(nm_id),
                Some(brand),
                Some(status),
            ) => Some(
                ItemView {
                    chrt_id,
                    track_number,
                    price,
                    rid,
                    name,
                    sale,
                    size,
                    total_price,
                    nm_id,
                    brand,
                    status,
                },
            ),
            _ => None,
        }
    } else {
        None
    }
}

/// The link that a link insert carries in its two parameters.
pub open spec fn link_in(statement: StatementView) -> Option<StoredLink> {
    let p = statement.params;
    if statement.kind == StatementKind::InsertOrderItem && p.len() == 2 {
        match (text_param(p, 0), unsigned_param(p, 1)) {
            (Some(order_uid), Some(chrt_id)) => Some(StoredLink { order_uid, chrt_id }),
            _ => None,
        }
    } else {
        None
    }
}

/// The order that an item query asks for, in its one parameter.
pub open spec fn order_uid_in(statement: StatementView) -> Option<Seq<char>> {
    if statement.kind == StatementKind::SelectItems && statement.params.len() == 1 {
        text_param(statement.params, 0)
    } else {
        None
    }
}

/// The stored delivery with the number `id`.
pub open spec fn delivery_numbered(deliveries: Seq<StoredDelivery>, id: i64) -> Option<
    DeliveryView,
>
    decreases deliveries.len(),
{
    if deliveries.len() == 0 {
        None
    } else if deliveries.last().id == id {
        Some(deliveries.last().delivery)
    } else {
        delivery_numbered(deliveries.drop_last(), id)
    }
}

/// The stored payment with the transaction `transaction`.
pub open spec fn payment_keyed(payments: Seq<PaymentView>, transaction: Seq<char>) -> Option<
    PaymentView,
>
    decreases payments.len(),
{
    if payments.len() == 0 {
        None
    } else if payments.last().transaction == transaction {
        Some(payments.last())
    } else {
        payment_keyed(payments.drop_last(), transaction)
    }
}

/// How many of `links` join the order called `order_uid` with the item `chrt_id`.
pub open spec fn links_between(links: Seq<StoredLink>, order_uid: Seq<char>, chrt_id: u32) -> nat
    decreases links.len(),
{
    if links.len() == 0 {
        0
    } else {
        let before = links_between(links.drop_last(), order_uid, chrt_id);
        if links.last().order_uid == order_uid && links.last().chrt_id == chrt_id {
            before + 1
        } else {
            before
        }
    }
}

/// Of `items`, those that `links` join with the order called `order_uid`, each
/// as often as a link joins it.
pub open spec fn linked_among(items: Seq<ItemView>, links: Seq<StoredLink>, order_uid: Seq<char>) -> Seq<
    ItemView,
>
    decreases items.len(),
{
    if items.len() == 0 {
        Seq::empty()
    } else {
        linked_among(items.drop_last(), links, order_uid) + Seq::new(
            links_between(links, order_uid, items.last().chrt_id),
            |i: int| items.last(),
        )
    }
}

/// An order's row joined with its delivery and its payment, where both are stored.
pub open spec fn joined_order(storage: Storage, stored: StoredOrder) -> Option<OrderView> {
    match (
        delivery_numbered(storage.deliveries, stored.delivery_id),
        payment_keyed(storage.payments, stored.transaction),
    ) {
        (Some(delivery), Some(payment)) => Some(
            OrderView {
                order_uid: stored.own.order_uid,
                track_number: stored.own.track_number,
                entry: stored.own.entry,
                delivery,
                payment,
                items: Seq::empty(),
                locale: stored.own.locale,
                internal_signature: stored.own.internal_signature,
                customer_id: stored.own.customer_id,
                delivery_service: stored.own.delivery_service,
                shardkey: stored.own.shardkey,
                sm_id: stored.own.sm_id,
                date_created: stored.own.date_created,
                oof_shard: stored.own.oof_shard,
            },
        ),
        _ => None,
    }
}

/// Of `orders`, those that join with a delivery and a payment of `storage`.
pub open spec fn joined_among(storage: Storage, orders: Seq<StoredOrder>) -> Seq<OrderView>
    decreases orders.len(),
{
    if orders.len() == 0 {
        Seq::empty()
    } else {
        let before = joined_among(storage, orders.drop_last());
        match joined_order(storage, orders.last()) {
            Some(order) => before.push(order),
            None => before,
        }
    }
}

impl Storage {
    /// No two deliveries have the same number, and no two payments the same
    /// transaction.
    pub open spec fn well_formed(self) -> bool {
        &&& forall|i: int, j: int|
            0 <= i < j < self.deliveries.len() ==> self.deliveries[i].id != self.deliveries[j].id
        &&& forall|i: int, j: int|
            0 <= i < j < self.payments.len() ==> self.payments[i].transaction
                != self.payments[j].transaction
    }

    /// What the join of orders, deliveries and payments gives: the orders
    /// without their items.
    pub open spec fn joined(self) -> Seq<OrderView> {
        joined_among(self, self.orders)
    }

    /// The items linked to the order called `order_uid`.
    pub open spec fn linked_items(self, order_uid: Seq<char>) -> Seq<ItemView> {
        linked_among(self.items, self.links, order_uid)
    }

    /// The orders that the storage holds, each with the items linked to it.
    pub open spec fn stored_orders(self) -> Seq<OrderView> {
        Seq::new(
            self.joined().len(),
            |i: int| with_items(self.joined()[i], self.linked_items(self.joined()[i].order_uid)),
        )
    }

    /// Whether the storage, in this state, may answer `statement` with `reply`.
    pub open spec fn admits(self, statement: StatementView, reply: ReplyView) -> bool {
        match reply {
            ReplyView::Failed(e) => (payment_in(statement) matches Some(p) && payment_keyed(
                self.payments,
                p.transaction,
            ) is Some) ==> e.kind == StorageErrorKind::Constraint,
            ReplyView::Done => match statement.kind {
                StatementKind::InsertPayment => payment_in(statement) matches Some(p)
                    && payment_keyed(self.payments, p.transaction) is None,
                StatementKind::InsertOrder => order_in(statement) is Some,
                StatementKind::InsertItem => item_in(statement) is Some,
                StatementKind::InsertOrderItem => link_in(statement) is Some,
                _ => false,
            },
            ReplyView::Rows(rows) => match statement.kind {
                StatementKind::InsertDelivery => delivery_in(statement) is Some && (new_delivery_id(
                    reply,
                ) matches Some(id) && delivery_numbered(self.deliveries, id) is None),
                StatementKind::SelectOrders => statement.params.len() == 0 && rows.len()
                    == self.joined().len() && forall|i: int|
                    0 <= i < rows.len() ==> (#[trigger] order_of(rows[i])) == Some(
                        self.joined()[i],
                    ),
                StatementKind::SelectItems => order_uid_in(statement) matches Some(order_uid)
                    && items_of(rows) == Some(self.linked_items(order_uid)),
                _ => false,
            },
        }
    }

    /// The state after the storage has answered `statement` with `reply`.
    pub open spec fn after(self, statement: StatementView, reply: ReplyView) -> Storage {
        if reply is Failed {
            self
        } else {
            match statement.kind {
                StatementKind::InsertDelivery => match (
                    delivery_in(statement),
                    new_delivery_id(reply),
                ) {
                    (Some(delivery), Some(id)) => Storage {
                        deliveries: self.deliveries.push(StoredDelivery { id, delivery }),
                        ..self
                    },
                    _ => self,
                },
                StatementKind::InsertPayment => match payment_in(statement) {
                    Some(payment) => Storage { payments: self.payments.push(payment), ..self },
                    None => self,
                },
                StatementKind::InsertOrder => match order_in(statement) {
                    Some(order) => Storage { orders: self.orders.push(order), ..self },
                    None => self,
                },
                StatementKind::InsertItem => match item_in(statement) {
                    Some(item) => Storage { items: self.items.push(item), ..self },
                    None => self,
                },
                StatementKind::InsertOrderItem => match link_in(statement) {
                    Some(link) => Storage { links: self.links.push(link), ..self },
                    None => self,
                },
                StatementKind::SelectOrders | StatementKind::SelectItems => self,
            }
        }
    }

    /// Whether the storage, starting in this state, may answer the statements
    /// `sent` one after the other with `replies`. Only statements that have a
    /// reply are looked at.
    pub open spec fn answers(self, sent: Seq<StatementView>, replies: Seq<ReplyView>) -> bool
        decreases sent.len(),
    {
        if sent.len() == 0 || replies.len() == 0 {
            true
        } else {
            self.admits(sent[0], replies[0]) && self.after(sent[0], replies[0]).answers(
                sent.drop_first(),
                replies.drop_first(),
            )
        }
    }

    /// The state after the storage has answered the statements `sent` one
    /// after the other with `replies`.
    pub open spec fn after_all(self, sent: Seq<StatementView>, replies: Seq<ReplyView>) -> Storage
        decreases sent.len(),
    {
        if sent.len() == 0 || replies.len() == 0 {
            self
        } else {
            self.after(sent[0], replies[0]).after_all(sent.drop_first(), replies.drop_first())
        }
    }
}

/// The fields of an order's own row.
pub open spec fn own_fields(order: OrderView) -> OrderFields {
    OrderFields {
        order_uid: order.order_uid,
        track_number: order.track_number,
        entry: order.entry,
        locale: order.locale,
        internal_signature: order.internal_signature,
        customer_id: order.customer_id,
        delivery_service: order.delivery_service,
        shardkey: order.shardkey,
        sm_id: order.sm_id,
        date_created: order.date_created,
        oof_shard: order.oof_shard,
    }
}

/// The row that stands for `order` in the table of orders.
pub open spec fn stored_row(order: OrderView, delivery_id: i64) -> StoredOrder {
    StoredOrder { own: own_fields(order), delivery_id, transaction: order.payment.transaction }
}

/// The rows that link the items of `order` to it, in the items' order.
pub open spec fn links_of(order: OrderView) -> Seq<StoredLink> {
    Seq::new(
        order.items.len(),
        |i: int| StoredLink { order_uid: order.order_uid, chrt_id: order.items[i].chrt_id },
    )
}

impl Storage {
    /// The storage with every row of `order` added, its delivery under the
    /// number `delivery_id`.
    pub open spec fn with_order(self, order: OrderView, delivery_id: i64) -> Storage {
        Storage {
            deliveries: self.deliveries.push(
                StoredDelivery { id: delivery_id, delivery: order.delivery },
            ),
            payments: self.payments.push(order.payment),
            orders: self.orders.push(stored_row(order, delivery_id)),
            items: self.items + order.items,
            links: self.links + links_of(order),
        }
    }
}

/// The inserts of a delivery, a payment and an order's row carry the rows they
/// were built from, and an item query carries the order's name.
pub proof fn lemma_order_inserts_carry_their_rows(order: OrderView, delivery_id: i64)
    ensures
        delivery_in(delivery_statement(order.delivery)) == Some(order.delivery),
        payment_in(payment_statement(order.payment)) == Some(order.payment),
        order_in(order_statement(order, delivery_id)) == Some(stored_row(order, delivery_id)),
        order_uid_in(items_statement(order.order_uid)) == Some(order.order_uid),
{
}

/// The inserts of an item and of its link carry the rows they were built from.
pub proof fn lemma_item_inserts_carry_their_rows(order_uid: Seq<char>, item: ItemView)
    ensures
        item_in(item_statement(item)) == Some(item),
        link_in(order_item_statement(order_uid, item.chrt_id)) == Some(
            StoredLink { order_uid, chrt_id: item.chrt_id },
        ),
{
}

proof fn lemma_items_written(
    storage: Storage,
    order: OrderView,
    delivery_id: i64,
    i: int,
    replies: Seq<ReplyView>,
)
    requires
        0 <= i <= order.items.len(),
        replies.len() >= 2 * (order.items.len() - i),
        forall|j: int| 0 <= j < 2 * (order.items.len() - i) ==> !(#[trigger] replies[j] is Failed),
        storage.answers(
            save_plan(order, delivery_id).subrange(
                3 + 2 * i,
                save_plan(order, delivery_id).len() as int,
            ),
            replies,
        ),
    ensures
        storage.after_all(
            save_plan(order, delivery_id).subrange(
                3 + 2 * i,
                save_plan(order, delivery_id).len() as int,
            ),
            replies,
        ) == (Storage {
            items: storage.items + order.items.subrange(i, order.items.len() as int),
            links: storage.links + links_of(order).subrange(i, order.items.len() as int),
            ..storage
        }),
    decreases order.items.len() - i,
{
    let n = order.items.len() as int;
    let plan = save_plan(order, delivery_id);
    let sent = plan.subrange(3 + 2 * i, plan.len() as int);
    let after = storage.after_all(sent, replies);
    if i == n {
        assert(storage.items + order.items.subrange(i, n) =~= storage.items);
        assert(storage.links + links_of(order).subrange(i, n) =~= storage.links);
    } else {
        let item = order.items[i];
        lemma_item_inserts_carry_their_rows(order.order_uid, item);
        assert(sent[0] == item_statement(item));
        assert(!(replies[0] is Failed));
        let first = storage.after(sent[0], replies[0]);
        assert(first == Storage { items: storage.items.push(item), ..storage });
        let sent1 = sent.drop_first();
        let replies1 = replies.drop_first();
        assert(first.answers(sent1, replies1));
        assert(after == first.after_all(sent1, replies1));
        assert(sent1[0] == order_item_statement(order.order_uid, item.chrt_id));
        assert(replies1[0] == replies[1]);
        assert(!(replies[1] is Failed));
        let second = first.after(sent1[0], replies1[0]);
        assert(second == Storage { links: first.links.push(links_of(order)[i]), ..first });
        let sent2 = sent1.drop_first();
        let replies2 = replies1.drop_first();
        assert(second.answers(sent2, replies2));
        assert(sent2 =~= plan.subrange(3 + 2 * (i + 1), plan.len() as int));
        assert forall|j: int| 0 <= j < 2 * (n - (i + 1)) implies !(#[trigger] replies2[j] is Failed) by {
            assert(replies2[j] == replies[j + 2]);
        }
        lemma_items_written(second, order, delivery_id, i + 1, replies2);
        assert(after == second.after_all(sent2, replies2));
        assert(second.items + order.items.subrange(i + 1, n) =~= storage.items
            + order.items.subrange(i, n));
        assert(second.links + links_of(order).subrange(i + 1, n) =~= storage.links
            + links_of(order).subrange(i, n));
    }
}

/// What a save that succeeds writes: every row of the order, and nothing else.
///
/// The delivery stands under a number that no delivery had before, and no
/// payment had the order's transaction before.
pub proof fn lemma_saved_order_is_written(storage: Storage, order: OrderView, replies: Seq<ReplyView>)
    requires
        storage.answers(save_run(order, replies).sent, replies),
        save_run(order, replies).end == SaveStepView::Saved,
    ensures
        replies.len() >= 3 + 2 * order.items.len(),
        new_delivery_id(replies[0]) is Some,
        save_run(order, replies).sent == save_plan(order, new_delivery_id(replies[0])->0),
        storage.after_all(save_run(order, replies).sent, replies) == storage.with_order(
            order,
            new_delivery_id(replies[0])->0,
        ),
        delivery_numbered(storage.deliveries, new_delivery_id(replies[0])->0) is None,
        payment_keyed(storage.payments, order.payment.transaction) is None,
{
    let run = save_run(order, replies);
    if replies.len() == 0 {
        lemma_save_follows_the_plan(order, replies, 0);
        assert(false);
    }
    if replies[0] is Failed {
        lemma_save_follows_the_plan(order, replies, 0);
        assert(false);
    }
    if new_delivery_id(replies[0]) is None {
        lemma_save_needs_the_delivery_id(order, replies);
        assert(false);
    }
    let id = new_delivery_id(replies[0])->0;
    let plan = save_plan(order, id);
    lemma_save_follows_the_plan(order, replies, id);
    lemma_accepted_before_first_failure(replies);
    let f = first_failure(replies);
    assert(f >= plan.len());
    assert(run.sent =~= plan);
    lemma_order_inserts_carry_their_rows(order, id);
    let s1 = storage.after(plan[0], replies[0]);
    let sent1 = plan.drop_first();
    let replies1 = replies.drop_first();
    assert(s1 == Storage {
        deliveries: storage.deliveries.push(StoredDelivery { id, delivery: order.delivery }),
        ..storage
    });
    assert(s1.answers(sent1, replies1));
    assert(storage.after_all(plan, replies) == s1.after_all(sent1, replies1));
    assert(sent1[0] == plan[1]);
    assert(replies1[0] == replies[1]);
    assert(!(replies[1] is Failed));
    let s2 = s1.after(sent1[0], replies1[0]);
    assert(s2 == Storage { payments: s1.payments.push(order.payment), ..s1 });
    let sent2 = sent1.drop_first();
    let replies2 = replies1.drop_first();
    assert(s2.answers(sent2, replies2));
    assert(s1.after_all(sent1, replies1) == s2.after_all(sent2, replies2));
    assert(sent2[0] == plan[2]);
    assert(replies2[0] == replies[2]);
    assert(!(replies[2] is Failed));
    let s3 = s2.after(sent2[0], replies2[0]);
    assert(s3 == Storage { orders: s2.orders.push(stored_row(order, id)), ..s2 });
    let sent3 = sent2.drop_first();
    let replies3 = replies2.drop_first();
    assert(s3.answers(sent3, replies3));
    assert(s2.after_all(sent2, replies2) == s3.after_all(sent3, replies3));
    assert(sent3 =~= plan.subrange(3, plan.len() as int));
    assert forall|j: int| 0 <= j < 2 * order.items.len() implies !(#[trigger] replies3[j] is Failed) by {
        assert(replies3[j] == replies[j + 3]);
    }
    lemma_items_written(s3, order, id, 0, replies3);
    assert(storage.after_all(plan, replies) == s3.after_all(sent3, replies3));
    assert(order.items.subrange(0, order.items.len() as int) =~= order.items);
    assert(links_of(order).subrange(0, order.items.len() as int) =~= links_of(order));
}

proof fn lemma_selects_change_nothing(
    storage: Storage,
    sent: Seq<StatementView>,
    replies: Seq<ReplyView>,
)
    requires
        forall|k: int|
            0 <= k < sent.len() ==> (#[trigger] sent[k]).kind == StatementKind::SelectOrders
                || sent[k].kind == StatementKind::SelectItems,
        storage.answers(sent, replies),
    ensures
        storage.after_all(sent, replies) == storage,
        forall|k: int|
            0 <= k < sent.len() && k < replies.len() ==> storage.admits(
                #[trigger] sent[k],
                replies[k],
            ),
    decreases sent.len(),
{
    if sent.len() == 0 || replies.len() == 0 {
    } else {
        let sent1 = sent.drop_first();
        let replies1 = replies.drop_first();
        assert(sent[0].kind == StatementKind::SelectOrders || sent[0].kind
            == StatementKind::SelectItems);
        assert(storage.after(sent[0], replies[0]) == storage);
        assert forall|k: int| 0 <= k < sent1.len() implies (#[trigger] sent1[k]).kind
            == StatementKind::SelectOrders || sent1[k].kind == StatementKind::SelectItems by {
            assert(sent1[k] == sent[k + 1]);
        }
        lemma_selects_change_nothing(storage, sent1, replies1);
        assert forall|k: int| 0 <= k < sent.len() && k < replies.len() implies storage.admits(
            #[trigger] sent[k],
            replies[k],
        ) by {
            if k > 0 {
                assert(sent[k] == sent1[k - 1]);
                assert(replies[k] == replies1[k - 1]);
            }
        }
    }
}

/// Reading all orders gives the orders that the storage holds, and changes nothing.
///
/// Whenever the storage answers every statement of a reading and the reading
/// ends with orders, these are the stored orders, each with the items linked to
/// it, and the storage is in the state in which it was.
pub proof fn lemma_reading_gives_the_stored_orders(storage: Storage, replies: Seq<ReplyView>)
    requires
        storage.answers(load_run(replies).sent, replies),
        load_run(replies).end is Loaded,
    ensures
        load_run(replies).end == LoadStepView::Loaded(storage.stored_orders()),
        storage.after_all(load_run(replies).sent, replies) == storage,
{
    let run = load_run(replies);
    assert(replies.len() > 0);
    lemma_load_follows_the_rows(replies);
    assert(replies[0] is Rows);
    let rows = replies[0]->Rows_0;
    let item_replies = replies.drop_first();
    let b = first_unreadable(rows);
    let g = first_without_items(item_replies);
    assert(g >= b && b == rows.len());
    let queries = Seq::new(b as nat, |j: int| item_query(rows, j));
    assert(run.sent == seq![orders_statement()] + queries);
    assert forall|k: int| 0 <= k < run.sent.len() implies (#[trigger] run.sent[k]).kind
        == StatementKind::SelectOrders || run.sent[k].kind == StatementKind::SelectItems by {
        if k > 0 {
            assert(run.sent[k] == queries[k - 1]);
        }
    }
    lemma_selects_change_nothing(storage, run.sent, replies);
    assert(run.sent[0] == orders_statement());
    assert(storage.admits(run.sent[0], replies[0]));
    let joined = storage.joined();
    assert(rows.len() == joined.len());
    let read = orders_read(rows, item_replies);
    lemma_items_before_first_without(item_replies);
    assert forall|i: int| 0 <= i < rows.len() implies #[trigger] read[i]
        == storage.stored_orders()[i] by {
        assert(order_of(rows[i]) == Some(joined[i]));
        assert(items_result(item_replies[i]) is Ok);
        assert(run.sent[i + 1] == queries[i]);
        assert(replies[i + 1] == item_replies[i]);
        assert(storage.admits(run.sent[i + 1], replies[i + 1]));
        lemma_order_inserts_carry_their_rows(joined[i], 0);
    }
    assert(read =~= storage.stored_orders());
}

proof fn lemma_links_between_concat(
    a: Seq<StoredLink>,
    b: Seq<StoredLink>,
    order_uid: Seq<char>,
    chrt_id: u32,
)
    ensures
        links_between(a + b, order_uid, chrt_id) == links_between(a, order_uid, chrt_id)
            + links_between(b, order_uid, chrt_id),
    decreases b.len(),
{
    if b.len() == 0 {
        assert(a + b =~= a);
    } else {
        assert((a + b).drop_last() =~= a + b.drop_last());
        lemma_links_between_concat(a, b.drop_last(), order_uid, chrt_id);
    }
}

proof fn lemma_links_of_other_orders(links: Seq<StoredLink>, order_uid: Seq<char>, chrt_id: u32)
    requires
        forall|k: int| 0 <= k < links.len() ==> (#[trigger] links[k]).order_uid != order_uid,
    ensures
        links_between(links, order_uid, chrt_id) == 0,
    decreases links.len(),
{
    if links.len() > 0 {
        assert(links.last() == links[links.len() - 1]);
        let rest = links.drop_last();
        assert forall|k: int| 0 <= k < rest.len() implies (#[trigger] rest[k]).order_uid
            != order_uid by {
            assert(rest[k] == links[k]);
        }
        lemma_links_of_other_orders(rest, order_uid, chrt_id);
    }
}

proof fn lemma_links_of_own_items(order: OrderView, m: int, chrt_id: u32)
    requires
        0 <= m <= order.items.len(),
        forall|i: int, j: int|
            0 <= i < j < order.items.len() ==> (#[trigger] order.items[i]).chrt_id
                != (#[trigger] order.items[j]).chrt_id,
    ensures
        (forall|i: int| 0 <= i < m ==> (#[trigger] order.items[i]).chrt_id != chrt_id)
            ==> links_between(links_of(order).take(m), order.order_uid, chrt_id) == 0,
        forall|k: int|
            0 <= k < m && (#[trigger] order.items[k]).chrt_id == chrt_id ==> links_between(
                links_of(order).take(m),
                order.order_uid,
                chrt_id,
            ) == 1,
    decreases m,
{
    let links = links_of(order).take(m);
    if m > 0 {
        assert(links.drop_last() =~= links_of(order).take(m - 1));
        assert(links.last() == links_of(order)[m - 1]);
        lemma_links_of_own_items(order, m - 1, chrt_id);
        if order.items[m - 1].chrt_id == chrt_id {
            assert forall|i: int| 0 <= i < m - 1 implies (#[trigger] order.items[i]).chrt_id
                != chrt_id by {
                assert(order.items[i].chrt_id != order.items[m - 1].chrt_id);
            }
        } else {
            assert forall|k: int|
                0 <= k < m && (#[trigger] order.items[k]).chrt_id == chrt_id implies links_between(
                links,
                order.order_uid,
                chrt_id,
            ) == 1 by {
                assert(k < m - 1);
            }
        }
    }
}

proof fn lemma_linked_among_concat(
    a: Seq<ItemView>,
    b: Seq<ItemView>,
    links: Seq<StoredLink>,
    order_uid: Seq<char>,
)
    ensures
        linked_among(a + b, links, order_uid) == linked_among(a, links, order_uid) + linked_among(
            b,
            links,
            order_uid,
        ),
    decreases b.len(),
{
    if b.len() == 0 {
        assert(a + b =~= a);
        assert(linked_among(a, links, order_uid) + Seq::<ItemView>::empty() =~= linked_among(
            a,
            links,
            order_uid,
        ));
    } else {
        assert((a + b).drop_last() =~= a + b.drop_last());
        lemma_linked_among_concat(a, b.drop_last(), links, order_uid);
        let copies = Seq::new(
            links_between(links, order_uid, b.last().chrt_id),
            |i: int| b.last(),
        );
        assert((linked_among(a, links, order_uid) + linked_among(b.drop_last(), links, order_uid))
            + copies =~= linked_among(a, links, order_uid) + (linked_among(
            b.drop_last(),
            links,
            order_uid,
        ) + copies));
    }
}

proof fn lemma_linked_among_none(items: Seq<ItemView>, links: Seq<StoredLink>, order_uid: Seq<char>)
    requires
        forall|k: int|
            0 <= k < items.len() ==> links_between(links, order_uid, (#[trigger] items[k]).chrt_id)
                == 0,
    ensures
        linked_among(items, links, order_uid) == Seq::<ItemView>::empty(),
    decreases items.len(),
{
    if items.len() > 0 {
        let rest = items.drop_last();
        assert(items.last() == items[items.len() - 1]);
        assert forall|k: int| 0 <= k < rest.len() implies links_between(
            links,
            order_uid,
            (#[trigger] rest[k]).chrt_id,
        ) == 0 by {
            assert(rest[k] == items[k]);
        }
        lemma_linked_among_none(rest, links, order_uid);
        assert(linked_among(items, links, order_uid) =~= Seq::<ItemView>::empty());
    }
}

proof fn lemma_linked_among_each_once(
    items: Seq<ItemView>,
    links: Seq<StoredLink>,
    order_uid: Seq<char>,
)
    requires
        forall|k: int|
            0 <= k < items.len() ==> links_between(links, order_uid, (#[trigger] items[k]).chrt_id)
                == 1,
    ensures
        linked_among(items, links, order_uid) == items,
    decreases items.len(),
{
    if items.len() == 0 {
        assert(linked_among(items, links, order_uid) =~= items);
    } else {
        let rest = items.drop_last();
        assert(items.last() == items[items.len() - 1]);
        assert forall|k: int| 0 <= k < rest.len() implies links_between(
            links,
            order_uid,
            (#[trigger] rest[k]).chrt_id,
        ) == 1 by {
            assert(rest[k] == items[k]);
        }
        lemma_linked_among_each_once(rest, links, order_uid);
        assert(linked_among(items, links, order_uid) =~= items);
    }
}

impl Storage {
    /// Whether `order` can be added without its items getting mixed up with
    /// others: no stored link names the order, no stored item has the
    /// `chrt_id` of one of its items, and no two of its items share a `chrt_id`.
    pub open spec fn keeps_apart(self, order: OrderView) -> bool {
        &&& forall|k: int|
            0 <= k < self.links.len() ==> (#[trigger] self.links[k]).order_uid != order.order_uid
        &&& forall|k: int, i: int|
            0 <= k < self.items.len() && 0 <= i < order.items.len() ==> (#[trigger] self.items[k]).chrt_id
                != (#[trigger] order.items[i]).chrt_id
        &&& forall|i: int, j: int|
            0 <= i < j < order.items.len() ==> (#[trigger] order.items[i]).chrt_id
                != (#[trigger] order.items[j]).chrt_id
    }
}

impl Storage {
    /// Whether a save of `order` succeeds when the storage, starting in this
    /// state, answers it with `writes`, and a reading of all orders succeeds
    /// when the storage then answers it with `reads`.
    pub open spec fn saves_and_reads(
        self,
        order: OrderView,
        writes: Seq<ReplyView>,
        reads: Seq<ReplyView>,
    ) -> bool {
        &&& self.answers(save_run(order, writes).sent, writes)
        &&& save_run(order, writes).end == SaveStepView::Saved
        &&& self.after_all(save_run(order, writes).sent, writes).answers(
            load_run(reads).sent,
            reads,
        )
        &&& load_run(reads).end is Loaded
    }
}

/// Once an order is written, the items linked to it are its own items.
pub proof fn lemma_written_items_are_linked(storage: Storage, order: OrderView, delivery_id: i64)
    requires
        storage.keeps_apart(order),
    ensures
        storage.with_order(order, delivery_id).linked_items(order.order_uid) == order.items,
{
    let uid = order.order_uid;
    let links = storage.links + links_of(order);
    assert(links_of(order).take(order.items.len() as int) =~= links_of(order));
    assert forall|k: int| 0 <= k < storage.items.len() implies links_between(
        links,
        uid,
        (#[trigger] storage.items[k]).chrt_id,
    ) == 0 by {
        let c = storage.items[k].chrt_id;
        lemma_links_between_concat(storage.links, links_of(order), uid, c);
        lemma_links_of_other_orders(storage.links, uid, c);
        assert forall|i: int| 0 <= i < order.items.len() implies (#[trigger] order.items[i]).chrt_id
            != c by {
            assert(storage.items[k].chrt_id != order.items[i].chrt_id);
        }
        lemma_links_of_own_items(order, order.items.len() as int, c);
    }
    assert forall|k: int| 0 <= k < order.items.len() implies links_between(
        links,
        uid,
        (#[trigger] order.items[k]).chrt_id,
    ) == 1 by {
        let c = order.items[k].chrt_id;
        lemma_links_between_concat(storage.links, links_of(order), uid, c);
        lemma_links_of_other_orders(storage.links, uid, c);
        lemma_links_of_own_items(order, order.items.len() as int, c);
    }
    lemma_linked_among_concat(storage.items, order.items, links, uid);
    lemma_linked_among_none(storage.items, links, uid);
    lemma_linked_among_each_once(order.items, links, uid);
    assert(Seq::<ItemView>::empty() + order.items =~= order.items);
}

/// Once an order is written, the join gives it last, with its own delivery and
/// its own payment.
pub proof fn lemma_written_order_is_joined(storage: Storage, order: OrderView, delivery_id: i64)
    ensures
        storage.with_order(order, delivery_id).joined().len() > 0,
        storage.with_order(order, delivery_id).joined().last() == with_items(order, Seq::empty()),
{
    let after = storage.with_order(order, delivery_id);
    assert(after.orders.last() == stored_row(order, delivery_id));
    assert(after.deliveries.last().id == delivery_id);
    assert(after.payments.last() == order.payment);
    assert(joined_order(after, stored_row(order, delivery_id)) == Some(
        with_items(order, Seq::empty()),
    ));
}

/// Whether `read` is `written` but for the order in which its items stand.
pub open spec fn same_but_for_item_order(read: OrderView, written: OrderView) -> bool {
    &&& with_items(read, Seq::empty()) == with_items(written, Seq::empty())
    &&& read.items.to_multiset() == written.items.to_multiset()
}

/// An order that was stored is read back as it was written.
///
/// Let a save of `order` succeed, and let a reading of all orders succeed from
/// the state that the save left. Then one of the orders read is `order`:
/// every field of the order, of its delivery and of its payment is as it was
/// written, and the items are the same items, each as often as it was written;
/// their order is not promised.
///
/// This is stated for orders that the storage keeps apart from what it holds
/// (`keeps_apart`). Without that the items are not the same: an item that
/// shares its `chrt_id` with a stored item is read back together with that one.
pub proof fn lemma_round_trip(
    storage: Storage,
    order: OrderView,
    writes: Seq<ReplyView>,
    reads: Seq<ReplyView>,
)
    requires
        storage.well_formed(),
        storage.keeps_apart(order),
        storage.saves_and_reads(order, writes, reads),
    ensures
        exists|j: int|
            0 <= j < load_run(reads).end->Loaded_0.len() && same_but_for_item_order(
                #[trigger] load_run(reads).end->Loaded_0[j],
                order,
            ),
{
    lemma_saved_order_is_written(storage, order, writes);
    let id = new_delivery_id(writes[0])->0;
    let after = storage.with_order(order, id);
    lemma_reading_gives_the_stored_orders(after, reads);
    lemma_written_order_is_joined(storage, order, id);
    lemma_written_items_are_linked(storage, order, id);
    let read = load_run(reads).end->Loaded_0;
    let j = after.joined().len() - 1;
    assert(after.joined()[j] == after.joined().last());
    assert(read[j] == with_items(after.joined()[j], order.items));
    assert(same_but_for_item_order(read[j], order));
}

/// An order without items is read back without items, and not as an error.
///
/// Let a save of an order without items succeed, and let a reading of all
/// orders succeed from the state that the save left. Then the save took
/// exactly three statements, and one of the orders read is `order` itself,
/// with no items. This is stated for orders that no stored link names.
pub proof fn lemma_round_trip_without_items(
    storage: Storage,
    order: OrderView,
    writes: Seq<ReplyView>,
    reads: Seq<ReplyView>,
)
    requires
        storage.well_formed(),
        order.items.len() == 0,
        forall|k: int|
            0 <= k < storage.links.len() ==> (#[trigger] storage.links[k]).order_uid
                != order.order_uid,
        storage.saves_and_reads(order, writes, reads),
    ensures
        save_run(order, writes).sent.len() == 3,
        exists|j: int|
            0 <= j < load_run(reads).end->Loaded_0.len() && (#[trigger] load_run(
                reads,
            ).end->Loaded_0[j]) == order,
{
    lemma_saved_order_is_written(storage, order, writes);
    lemma_round_trip(storage, order, writes, reads);
    let read = load_run(reads).end->Loaded_0;
    let j = choose|j: int| 0 <= j < read.len() && same_but_for_item_order(#[trigger] read[j], order);
    assert(read[j].items.to_multiset().len() == read[j].items.len()) by {
        read[j].items.to_multiset_ensures();
    }
    assert(order.items.to_multiset().len() == order.items.len()) by {
        order.items.to_multiset_ensures();
    }
    assert(read[j].items =~= Seq::empty());
    assert(order.items =~= Seq::empty());
    assert(read[j] == order);
}

/// A second payment with a transaction that is stored already is refused, and
/// the first one stays as it is.
///
/// Let a save of `first` succeed, and let `second` have the same transaction.
/// Then no save of `second` succeeds, however the storage answers. Where the
/// storage accepts the second delivery, the second payment's insert is
/// answered with a broken constraint; the save ends with that failure,
/// unchanged, and sends nothing after it. No table but that of deliveries
/// changes: the first payment is still the payment under that transaction.
pub proof fn lemma_same_transaction_is_refused(
    storage: Storage,
    first: OrderView,
    first_writes: Seq<ReplyView>,
    second: OrderView,
    second_writes: Seq<ReplyView>,
)
    requires
        storage.well_formed(),
        storage.answers(save_run(first, first_writes).sent, first_writes),
        save_run(first, first_writes).end == SaveStepView::Saved,
        second.payment.transaction == first.payment.transaction,
        storage.after_all(save_run(first, first_writes).sent, first_writes).answers(
            save_run(second, second_writes).sent,
            second_writes,
        ),
    ensures
        ({
            let between = storage.after_all(save_run(first, first_writes).sent, first_writes);
            let run = save_run(second, second_writes);
            let after = between.after_all(run.sent, second_writes);
            &&& run.end != SaveStepView::Saved
            &&& after.payments == between.payments
            &&& after.orders == between.orders
            &&& after.items == between.items
            &&& after.links == between.links
            &&& payment_keyed(after.payments, first.payment.transaction) == Some(first.payment)
            &&& second_writes.len() >= 2 && !(second_writes[0] is Failed) ==> {
                &&& second_writes[1] matches ReplyView::Failed(e)
                &&& e.kind == StorageErrorKind::Constraint
                &&& run.end == SaveStepView::Failed(ErrorView::Storage(e))
                &&& run.sent == seq![
                    delivery_statement(second.delivery),
                    payment_statement(second.payment),
                ]
            }
        }),
{
    lemma_saved_order_is_written(storage, first, first_writes);
    let first_id = new_delivery_id(first_writes[0])->0;
    let between = storage.with_order(first, first_id);
    assert(between.payments.last() == first.payment);
    assert(payment_keyed(between.payments, first.payment.transaction) == Some(first.payment));
    lemma_stored_transaction_stops_the_save(between, second, second_writes);
}

/// What a save leaves behind when the payment cannot be inserted because its
/// transaction is stored already.
proof fn lemma_stored_transaction_stops_the_save(
    storage: Storage,
    order: OrderView,
    replies: Seq<ReplyView>,
)
    requires
        payment_keyed(storage.payments, order.payment.transaction) is Some,
        storage.answers(save_run(order, replies).sent, replies),
    ensures
        ({
            let run = save_run(order, replies);
            let after = storage.after_all(run.sent, replies);
            &&& run.end != SaveStepView::Saved
            &&& after.payments == storage.payments
            &&& after.orders == storage.orders
            &&& after.items == storage.items
            &&& after.links == storage.links
            &&& replies.len() >= 2 && !(replies[0] is Failed) ==> {
                &&& replies[1] matches ReplyView::Failed(e)
                &&& e.kind == StorageErrorKind::Constraint
                &&& run.end == SaveStepView::Failed(ErrorView::Storage(e))
                &&& run.sent == seq![
                    delivery_statement(order.delivery),
                    payment_statement(order.payment),
                ]
            }
        }),
{
    let run = save_run(order, replies);
    let after = storage.after_all(run.sent, replies);
    lemma_order_inserts_carry_their_rows(order, 0);
    if replies.len() == 0 {
        lemma_save_follows_the_plan(order, replies, 0);
    } else if replies[0] is Failed {
        lemma_save_follows_the_plan(order, replies, 0);
        assert(run.sent[0] == delivery_statement(order.delivery));
        assert(storage.after(run.sent[0], replies[0]) == storage);
        assert(after == storage.after(run.sent[0], replies[0]).after_all(
            run.sent.drop_first(),
            replies.drop_first(),
        ));
    } else {
        assert(run.sent[0] == delivery_statement(order.delivery));
        assert(storage.admits(run.sent[0], replies[0]));
        let id = new_delivery_id(replies[0])->0;
        lemma_save_follows_the_plan(order, replies, id);
        lemma_accepted_before_first_failure(replies);
        let plan = save_plan(order, id);
        let s1 = storage.after(run.sent[0], replies[0]);
        let sent1 = run.sent.drop_first();
        let replies1 = replies.drop_first();
        assert(s1.payments == storage.payments);
        assert(after == s1.after_all(sent1, replies1));
        assert(s1.answers(sent1, replies1));
        if replies.len() >= 2 {
            assert(run.sent.len() >= 2);
            assert(sent1[0] == plan[1]);
            assert(replies1[0] == replies[1]);
            assert(s1.admits(sent1[0], replies1[0]));
            assert(replies[1] is Failed);
            assert(first_failure(replies) == 1);
            assert(run.sent =~= seq![
                delivery_statement(order.delivery),
                payment_statement(order.payment),
            ]);
            assert(s1.after(sent1[0], replies1[0]) == s1);
            assert(s1.after_all(sent1, replies1) == s1.after_all(
                sent1.drop_first(),
                replies1.drop_first(),
            ));
            assert(sent1.drop_first().len() == 0);
        } else {
            assert(replies1.len() == 0);
        }
    }
}

/// When the payment's insert fails after the delivery's insert succeeded, the
/// order's row is never inserted, and the delivery stays written.
///
/// The save sends the delivery's and the payment's insert and nothing more,
/// and ends with the payment's failure, unchanged. The storage then holds the
/// new delivery and is otherwise as it was: nothing takes the delivery back.
pub proof fn lemma_failed_payment_leaves_no_order(
    storage: Storage,
    order: OrderView,
    replies: Seq<ReplyView>,
)
    requires
        replies.len() >= 2,
        !(replies[0] is Failed),
        replies[1] is Failed,
        storage.answers(save_run(order, replies).sent, replies),
    ensures
        ({
            let run = save_run(order, replies);
            let after = storage.after_all(run.sent, replies);
            &&& new_delivery_id(replies[0]) is Some
            &&& run.sent == seq![
                delivery_statement(order.delivery),
                payment_statement(order.payment),
            ]
            &&& run.end == SaveStepView::Failed(ErrorView::Storage(replies[1]->Failed_0))
            &&& after == Storage {
                deliveries: storage.deliveries.push(
                    StoredDelivery {
                        id: new_delivery_id(replies[0])->0,
                        delivery: order.delivery,
                    },
                ),
                ..storage
            }
        }),
{
    let run = save_run(order, replies);
    let after = storage.after_all(run.sent, replies);
    lemma_order_inserts_carry_their_rows(order, 0);
    assert(run.sent[0] == delivery_statement(order.delivery));
    assert(storage.admits(run.sent[0], replies[0]));
    let id = new_delivery_id(replies[0])->0;
    lemma_save_follows_the_plan(order, replies, id);
    lemma_accepted_before_first_failure(replies);
    let plan = save_plan(order, id);
    assert(first_failure(replies) == 1);
    assert(run.sent =~= seq![
        delivery_statement(order.delivery),
        payment_statement(order.payment),
    ]);
    let s1 = storage.after(run.sent[0], replies[0]);
    let sent1 = run.sent.drop_first();
    let replies1 = replies.drop_first();
    assert(after == s1.after_all(sent1, replies1));
    assert(replies1[0] == replies[1]);
    assert(s1.after(sent1[0], replies1[0]) == s1);
    assert(s1.after_all(sent1, replies1) == s1.after_all(
        sent1.drop_first(),
        replies1.drop_first(),
    ));
    assert(sent1.drop_first().len() == 0);
}

/// Reading all orders twice, with nothing written in between, gives the same
/// orders twice.
pub proof fn lemma_reading_twice_gives_the_same(
    storage: Storage,
    first: Seq<ReplyView>,
    second: Seq<ReplyView>,
)
    requires
        storage.answers(load_run(first).sent, first),
        load_run(first).end is Loaded,
        storage.after_all(load_run(first).sent, first).answers(load_run(second).sent, second),
        load_run(second).end is Loaded,
    ensures
        load_run(second).end == load_run(first).end,
        storage.after_all(load_run(first).sent, first).after_all(load_run(second).sent, second)
            == storage,
{
    lemma_reading_gives_the_stored_orders(storage, first);
    lemma_reading_gives_the_stored_orders(storage, second);
}

proof fn lemma_unused_number(deliveries: Seq<StoredDelivery>, id: i64)
    requires
        delivery_numbered(deliveries, id) is None,
    ensures
        forall|i: int| 0 <= i < deliveries.len() ==> (#[trigger] deliveries[i]).id != id,
    decreases deliveries.len(),
{
    if deliveries.len() > 0 {
        let rest = deliveries.drop_last();
        lemma_unused_number(rest, id);
        assert forall|i: int| 0 <= i < deliveries.len() implies (#[trigger] deliveries[i]).id
            != id by {
            if i < rest.len() {
                assert(deliveries[i] == rest[i]);
            }
        }
    }
}

proof fn lemma_unused_transaction(payments: Seq<PaymentView>, transaction: Seq<char>)
    requires
        payment_keyed(payments, transaction) is None,
    ensures
        forall|i: int|
            0 <= i < payments.len() ==> (#[trigger] payments[i]).transaction != transaction,
    decreases payments.len(),
{
    if payments.len() > 0 {
        let rest = payments.drop_last();
        lemma_unused_transaction(rest, transaction);
        assert forall|i: int| 0 <= i < payments.len() implies (#[trigger] payments[i]).transaction
            != transaction by {
            if i < rest.len() {
                assert(payments[i] == rest[i]);
            }
        }
    }
}

/// Whatever the storage is sent and however it answers, no two deliveries
/// come to share a number and no two payments a transaction.
pub proof fn lemma_storage_stays_well_formed(
    storage: Storage,
    sent: Seq<StatementView>,
    replies: Seq<ReplyView>,
)
    requires
        storage.well_formed(),
        storage.answers(sent, replies),
    ensures
        storage.after_all(sent, replies).well_formed(),
    decreases sent.len(),
{
    if sent.len() == 0 || replies.len() == 0 {
    } else {
        let next = storage.after(sent[0], replies[0]);
        if next != storage {
            if sent[0].kind == StatementKind::InsertDelivery {
                lemma_unused_number(storage.deliveries, new_delivery_id(replies[0])->0);
            } else if sent[0].kind == StatementKind::InsertPayment {
                lemma_unused_transaction(
                    storage.payments,
                    payment_in(sent[0])->0.transaction,
                );
            }
        }
        assert(next.well_formed());
        lemma_storage_stays_well_formed(next, sent.drop_first(), replies.drop_first());
    }
}

/// A column that holds a text.
pub open spec fn text_column(name: Seq<char>, value: Seq<char>) -> ColumnView {
    ColumnView { name, value: SqlValueView::Text(value) }
}

/// A column that holds an unsigned number.
pub open spec fn unsigned_column(name: Seq<char>, value: u32) -> ColumnView {
    ColumnView { name, value: SqlValueView::Unsigned(value) }
}

/// The row with which the storage may answer a delivery's insert: one column,
/// the delivery's number.
pub open spec fn delivery_id_row(delivery_id: i64) -> Seq<ColumnView> {
    seq![ColumnView { name: "delivery_id"@, value: SqlValueView::BigInt(delivery_id) }]
}

/// A row of the join for `order`: the columns of the order's own row, of its
/// delivery and of its payment, under the names that the join gives them.
pub open spec fn order_row(order: OrderView, delivery_id: i64) -> Seq<ColumnView> {
    seq![
        text_column("order_uid"@, order.order_uid),
        text_column("track_number"@, order.track_number),
        text_column("entry"@, order.entry),
        text_column("locale"@, order.locale),
        text_column("internal_signature"@, order.internal_signature),
        text_column("customer_id"@, order.customer_id),
        text_column("delivery_service"@, order.delivery_service),
        text_column("shardkey"@, order.shardkey),
        ColumnView { name: "sm_id"@, value: SqlValueView::Int(order.sm_id) },
        text_column("date_created"@, order.date_created),
        text_column("oof_shard"@, order.oof_shard),
        ColumnView { name: "delivery_id"@, value: SqlValueView::BigInt(delivery_id) },
        text_column("name"@, order.delivery.name),
        text_column("phone"@, order.delivery.phone),
        text_column("zip"@, order.delivery.zip),
        text_column("city"@, order.delivery.city),
        text_column("address"@, order.delivery.address),
        text_column("region"@, order.delivery.region),
        text_column("email"@, order.delivery.email),
        text_column("transaction"@, order.payment.transaction),
        text_column("request_id"@, order.payment.request_id),
        text_column("currency"@, order.payment.currency),
        text_column("provider"@, order.payment.provider),
        unsigned_column("amount"@, order.payment.amount),
        unsigned_column("payment_dt"@, order.payment.payment_dt),
        text_column("bank"@, order.payment.bank),
        unsigned_column("delivery_cost"@, order.payment.delivery_cost),
        unsigned_column("goods_total"@, order.payment.goods_total),
        unsigned_column("custom_fee"@, order.payment.custom_fee),
    ]
}

/// A row of an item query for `item`.
pub open spec fn item_row(item: ItemView) -> Seq<ColumnView> {
    seq![
        unsigned_column("chrt_id"@, item.chrt_id),
        text_column("track_number"@, item.track_number),
        unsigned_column("price"@, item.price),
        text_column("rid"@, item.rid),
        text_column("name"@, item.name),
        unsigned_column("sale"@, item.sale),
        text_column("size"@, item.size),
        unsigned_column("total_price"@, item.total_price),
        unsigned_column("nm_id"@, item.nm_id),
        text_column("brand"@, item.brand),
        unsigned_column("status"@, item.status),
    ]
}

/// Every order can be read from a row of the join: the column names of the
/// join do not get in each other's way.
pub proof fn lemma_order_row_holds_the_order(order: OrderView, delivery_id: i64)
    ensures
        order_of(order_row(order, delivery_id)) == Some(with_items(order, Seq::empty())),
{
    reveal_strlit("order_uid");
    assert("order_uid"@.len() == 9);
    reveal_strlit("track_number");
    assert("track_number"@.len() == 12);
    reveal_strlit("entry");
    assert("entry"@.len() == 5);
    reveal_strlit("locale");
    assert("locale"@.len() == 6);
    reveal_strlit("internal_signature");
    assert("internal_signature"@.len() == 18);
    reveal_strlit("customer_id");
    assert("customer_id"@.len() == 11);
    reveal_strlit("delivery_service");
    assert("delivery_service"@.len() == 16);
    reveal_strlit("shardkey");
    assert("shardkey"@.len() == 8);
    reveal_strlit("sm_id");
    assert("sm_id"@.len() == 5);
    reveal_strlit("date_created");
    assert("date_created"@.len() == 12);
    reveal_strlit("oof_shard");
    assert("oof_shard"@.len() == 9);
    reveal_strlit("delivery_id");
    assert("delivery_id"@.len() == 11);
    reveal_strlit("name");
    assert("name"@.len() == 4);
    reveal_strlit("phone");
    assert("phone"@.len() == 5);
    reveal_strlit("zip");
    assert("zip"@.len() == 3);
    reveal_strlit("city");
    assert("city"@.len() == 4);
    reveal_strlit("address");
    assert("address"@.len() == 7);
    reveal_strlit("region");
    assert("region"@.len() == 6);
    reveal_strlit("email");
    assert("email"@.len() == 5);
    reveal_strlit("transaction");
    assert("transaction"@.len() == 11);
    reveal_strlit("request_id");
    assert("request_id"@.len() == 10);
    reveal_strlit("currency");
    assert("currency"@.len() == 8);
    reveal_strlit("provider");
    assert("provider"@.len() == 8);
    reveal_strlit("amount");
    assert("amount"@.len() == 6);
    reveal_strlit("payment_dt");
    assert("payment_dt"@.len() == 10);
    reveal_strlit("bank");
    assert("bank"@.len() == 4);
    reveal_strlit("delivery_cost");
    assert("delivery_cost"@.len() == 13);
    reveal_strlit("goods_total");
    assert("goods_total"@.len() == 11);
    reveal_strlit("custom_fee");
    assert("custom_fee"@.len() == 10);
    assert("order_uid"@[1] != "oof_shard"@[1]);
    assert("track_number"@[0] != "date_created"@[0]);
    assert("entry"@[0] != "sm_id"@[0]);
    assert("entry"@[0] != "phone"@[0]);
    assert("entry"@[1] != "email"@[1]);
    assert("locale"@[0] != "region"@[0]);
    assert("locale"@[0] != "amount"@[0]);
    assert("customer_id"@[0] != "delivery_id"@[0]);
    assert("customer_id"@[0] != "transaction"@[0]);
    assert("customer_id"@[0] != "goods_total"@[0]);
    assert("shardkey"@[0] != "currency"@[0]);
    assert("shardkey"@[0] != "provider"@[0]);
    assert("sm_id"@[0] != "phone"@[0]);
    assert("sm_id"@[0] != "email"@[0]);
    assert("delivery_id"@[0] != "transaction"@[0]);
    assert("delivery_id"@[0] != "goods_total"@[0]);
    assert("name"@[0] != "city"@[0]);
    assert("name"@[0] != "bank"@[0]);
    assert("phone"@[0] != "email"@[0]);
    assert("city"@[0] != "bank"@[0]);
    assert("region"@[0] != "amount"@[0]);
    assert("transaction"@[0] != "goods_total"@[0]);
    assert("request_id"@[0] != "payment_dt"@[0]);
    assert("request_id"@[0] != "custom_fee"@[0]);
    assert("currency"@[0] != "provider"@[0]);
    assert("payment_dt"@[0] != "custom_fee"@[0]);
    reveal_with_fuel(find_from, 30);
    let row = order_row(order, delivery_id);
    assert(delivery_of(row) == Some(order.delivery));
    assert(payment_of(row) == Some(order.payment));
    assert(order_fields_of(row) == Some(own_fields(order)));
}

/// Every item can be read from a row of an item query.
pub proof fn lemma_item_row_holds_the_item(item: ItemView)
    ensures
        item_of(item_row(item)) == Some(item),
{
    reveal_strlit("chrt_id");
    assert("chrt_id"@.len() == 7);
    reveal_strlit("track_number");
    assert("track_number"@.len() == 12);
    reveal_strlit("price");
    assert("price"@.len() == 5);
    reveal_strlit("rid");
    assert("rid"@.len() == 3);
    reveal_strlit("name");
    assert("name"@.len() == 4);
    reveal_strlit("sale");
    assert("sale"@.len() == 4);
    reveal_strlit("size");
    assert("size"@.len() == 4);
    reveal_strlit("total_price");
    assert("total_price"@.len() == 11);
    reveal_strlit("nm_id");
    assert("nm_id"@.len() == 5);
    reveal_strlit("brand");
    assert("brand"@.len() == 5);
    reveal_strlit("status");
    assert("status"@.len() == 6);
    assert("price"@[0] != "nm_id"@[0]);
    assert("price"@[0] != "brand"@[0]);
    assert("name"@[0] != "sale"@[0]);
    assert("name"@[0] != "size"@[0]);
    assert("sale"@[1] != "size"@[1]);
    assert("nm_id"@[0] != "brand"@[0]);
    reveal_with_fuel(find_from, 12);
}

proof fn lemma_joined_have_no_items(storage: Storage, orders: Seq<StoredOrder>)
    ensures
        forall|i: int|
            0 <= i < joined_among(storage, orders).len() ==> (#[trigger] joined_among(
                storage,
                orders,
            )[i]).items == Seq::<ItemView>::empty(),
    decreases orders.len(),
{
    if orders.len() > 0 {
        let before = joined_among(storage, orders.drop_last());
        lemma_joined_have_no_items(storage, orders.drop_last());
        assert forall|i: int| 0 <= i < joined_among(storage, orders).len() implies (
        #[trigger] joined_among(storage, orders)[i]).items == Seq::<ItemView>::empty() by {
            if i < before.len() {
                assert(joined_among(storage, orders)[i] == before[i]);
            }
        }
    }
}

proof fn lemma_selects_are_answered(
    storage: Storage,
    sent: Seq<StatementView>,
    replies: Seq<ReplyView>,
)
    requires
        forall|k: int|
            0 <= k < sent.len() ==> (#[trigger] sent[k]).kind == StatementKind::SelectOrders
                || sent[k].kind == StatementKind::SelectItems,
        forall|k: int|
            0 <= k < sent.len() && k < replies.len() ==> storage.admits(
                #[trigger] sent[k],
                replies[k],
            ),
    ensures
        storage.answers(sent, replies),
    decreases sent.len(),
{
    if sent.len() == 0 || replies.len() == 0 {
    } else {
        let sent1 = sent.drop_first();
        let replies1 = replies.drop_first();
        assert(storage.admits(sent[0], replies[0]));
        assert(sent[0].kind == StatementKind::SelectOrders || sent[0].kind
            == StatementKind::SelectItems);
        assert(storage.after(sent[0], replies[0]) == storage);
        assert forall|k: int| 0 <= k < sent1.len() implies (#[trigger] sent1[k]).kind
            == StatementKind::SelectOrders || sent1[k].kind == StatementKind::SelectItems by {
            assert(sent1[k] == sent[k + 1]);
        }
        assert forall|k: int| 0 <= k < sent1.len() && k < replies1.len() implies storage.admits(
            #[trigger] sent1[k],
            replies1[k],
        ) by {
            assert(sent1[k] == sent[k + 1]);
            assert(replies1[k] == replies[k + 1]);
        }
        lemma_selects_are_answered(storage, sent1, replies1);
    }
}

proof fn lemma_items_are_accepted(
    storage: Storage,
    order: OrderView,
    delivery_id: i64,
    i: int,
    replies: Seq<ReplyView>,
)
    requires
        0 <= i <= order.items.len(),
        replies.len() == 2 * (order.items.len() - i),
        forall|j: int| 0 <= j < replies.len() ==> #[trigger] replies[j] == ReplyView::Done,
    ensures
        storage.answers(
            save_plan(order, delivery_id).subrange(
                3 + 2 * i,
                save_plan(order, delivery_id).len() as int,
            ),
            replies,
        ),
    decreases order.items.len() - i,
{
    let n = order.items.len() as int;
    let plan = save_plan(order, delivery_id);
    let sent = plan.subrange(3 + 2 * i, plan.len() as int);
    if i < n {
        let item = order.items[i];
        lemma_item_inserts_carry_their_rows(order.order_uid, item);
        assert(sent[0] == item_statement(item));
        assert(replies[0] == ReplyView::Done);
        let first = storage.after(sent[0], replies[0]);
        let sent1 = sent.drop_first();
        let replies1 = replies.drop_first();
        assert(sent1[0] == order_item_statement(order.order_uid, item.chrt_id));
        assert(replies1[0] == replies[1]);
        assert(replies[1] == ReplyView::Done);
        let second = first.after(sent1[0], replies1[0]);
        let sent2 = sent1.drop_first();
        let replies2 = replies1.drop_first();
        assert(sent2 =~= plan.subrange(3 + 2 * (i + 1), plan.len() as int));
        assert forall|j: int| 0 <= j < replies2.len() implies #[trigger] replies2[j]
            == ReplyView::Done by {
            assert(replies2[j] == replies[j + 2]);
        }
        lemma_items_are_accepted(second, order, delivery_id, i + 1, replies2);
        assert(first.answers(sent1, replies1));
    }
}

/// Replies under which a save of `order` succeeds: the delivery's number for
/// the first statement of the plan, and `Done` for each of the others.
pub open spec fn accepting_replies(order: OrderView, delivery_id: i64) -> Seq<ReplyView> {
    Seq::new(
        save_plan(order, delivery_id).len(),
        |k: int|
            if k == 0 {
                ReplyView::Rows(seq![delivery_id_row(delivery_id)])
            } else {
                ReplyView::Done
            },
    )
}

impl Storage {
    /// The rows with which the storage answers the join in this state.
    pub open spec fn order_rows(self) -> Seq<Seq<ColumnView>> {
        Seq::new(self.joined().len(), |i: int| order_row(self.joined()[i], 0))
    }

    /// The reply with which the storage answers the item query for the order
    /// called `order_uid` in this state.
    pub open spec fn items_reply(self, order_uid: Seq<char>) -> ReplyView {
        ReplyView::Rows(
            Seq::new(
                self.linked_items(order_uid).len(),
                |j: int| item_row(self.linked_items(order_uid)[j]),
            ),
        )
    }

    /// Replies under which a reading of all orders succeeds in this state: the
    /// rows of the join, and then for each of its orders the rows of its items.
    pub open spec fn reading_replies(self) -> Seq<ReplyView> {
        seq![ReplyView::Rows(self.order_rows())] + Seq::new(
            self.joined().len(),
            |i: int| self.items_reply(self.joined()[i].order_uid),
        )
    }
}

/// A save can succeed. From every state, for every order whose transaction is
/// not stored yet and for every number that no stored delivery has, the
/// storage may accept every statement of the plan, and the order is saved.
pub proof fn lemma_save_can_succeed(storage: Storage, order: OrderView, delivery_id: i64)
    requires
        delivery_numbered(storage.deliveries, delivery_id) is None,
        payment_keyed(storage.payments, order.payment.transaction) is None,
    ensures
        ({
            let writes = accepting_replies(order, delivery_id);
            &&& save_run(order, writes).end == SaveStepView::Saved
            &&& storage.answers(save_run(order, writes).sent, writes)
            &&& storage.after_all(save_run(order, writes).sent, writes) == storage.with_order(
                order,
                delivery_id,
            )
        }),
{
    let plan = save_plan(order, delivery_id);
    let writes = accepting_replies(order, delivery_id);
    assert(writes[0] == ReplyView::Rows(seq![delivery_id_row(delivery_id)]));
    assert(new_delivery_id(writes[0]) == Some(delivery_id));
    lemma_save_follows_the_plan(order, writes, delivery_id);
    lemma_accepted_before_first_failure(writes);
    let run = save_run(order, writes);
    assert(first_failure(writes) == writes.len());
    assert(run.sent =~= plan);
    lemma_order_inserts_carry_their_rows(order, delivery_id);
    let s1 = storage.after(plan[0], writes[0]);
    let sent1 = plan.drop_first();
    let writes1 = writes.drop_first();
    assert(storage.admits(plan[0], writes[0]));
    assert(s1.payments == storage.payments);
    assert(sent1[0] == plan[1]);
    assert(writes1[0] == writes[1]);
    assert(s1.admits(sent1[0], writes1[0]));
    let s2 = s1.after(sent1[0], writes1[0]);
    let sent2 = sent1.drop_first();
    let writes2 = writes1.drop_first();
    assert(sent2[0] == plan[2]);
    assert(writes2[0] == writes[2]);
    assert(s2.admits(sent2[0], writes2[0]));
    let s3 = s2.after(sent2[0], writes2[0]);
    let sent3 = sent2.drop_first();
    let writes3 = writes2.drop_first();
    assert(sent3 =~= plan.subrange(3, plan.len() as int));
    assert forall|j: int| 0 <= j < writes3.len() implies #[trigger] writes3[j]
        == ReplyView::Done by {
        assert(writes3[j] == writes[j + 3]);
    }
    lemma_items_are_accepted(s3, order, delivery_id, 0, writes3);
    assert(s2.answers(sent2, writes2));
    assert(s1.answers(sent1, writes1));
    assert(storage.answers(plan, writes));
    lemma_saved_order_is_written(storage, order, writes);
}

proof fn lemma_reading_replies_hold_the_orders(storage: Storage)
    ensures
        ({
            let rows = storage.order_rows();
            let item_replies = storage.reading_replies().drop_first();
            &&& storage.reading_replies()[0] == ReplyView::Rows(rows)
            &&& rows.len() == storage.joined().len()
            &&& item_replies.len() == storage.joined().len()
            &&& forall|i: int|
                0 <= i < rows.len() ==> (#[trigger] order_of(rows[i])) == Some(
                    storage.joined()[i],
                )
            &&& forall|i: int|
                0 <= i < item_replies.len() ==> item_replies[i] is Rows && (#[trigger] items_of(
                    item_replies[i]->Rows_0,
                )) == Some(storage.linked_items(storage.joined()[i].order_uid))
        }),
{
    let joined = storage.joined();
    let rows = storage.order_rows();
    let reads = storage.reading_replies();
    let item_replies = reads.drop_first();
    assert(item_replies =~= Seq::new(
        joined.len(),
        |i: int| storage.items_reply(joined[i].order_uid),
    ));
    lemma_joined_have_no_items(storage, storage.orders);
    assert forall|i: int| 0 <= i < rows.len() implies (#[trigger] order_of(rows[i])) == Some(
        joined[i],
    ) by {
        lemma_order_row_holds_the_order(joined[i], 0);
        assert(joined[i].items == Seq::<ItemView>::empty());
    }
    assert forall|i: int| 0 <= i < item_replies.len() implies item_replies[i] is Rows && (
    #[trigger] items_of(item_replies[i]->Rows_0)) == Some(
        storage.linked_items(joined[i].order_uid),
    ) by {
        let linked = storage.linked_items(joined[i].order_uid);
        let item_rows = item_replies[i]->Rows_0;
        assert forall|j: int| 0 <= j < item_rows.len() implies (#[trigger] item_of(item_rows[j]))
            == Some(linked[j]) by {
            lemma_item_row_holds_the_item(linked[j]);
        }
        assert(items_of(item_rows)->0 =~= linked);
    }
}

/// A reading can succeed. In every state the storage may answer the join and
/// every item query, and all orders are read.
pub proof fn lemma_reading_can_succeed(storage: Storage)
    ensures
        load_run(storage.reading_replies()).end is Loaded,
        storage.answers(load_run(storage.reading_replies()).sent, storage.reading_replies()),
{
    let joined = storage.joined();
    let rows = storage.order_rows();
    let reads = storage.reading_replies();
    let item_replies = reads.drop_first();
    lemma_reading_replies_hold_the_orders(storage);
    lemma_load_follows_the_rows(reads);
    lemma_orders_before_first_unreadable(rows);
    lemma_items_before_first_without(item_replies);
    let b = first_unreadable(rows);
    let g = first_without_items(item_replies);
    if b < rows.len() {
        assert(order_of(rows[b]) is Some);
    }
    if g < item_replies.len() {
        assert(items_of(item_replies[g]->Rows_0) is Some);
    }
    let run = load_run(reads);
    assert(run.end is Loaded);
    let queries = Seq::new(b as nat, |j: int| item_query(rows, j));
    assert(run.sent == seq![orders_statement()] + queries);
    assert forall|k: int| 0 <= k < run.sent.len() implies (#[trigger] run.sent[k]).kind
        == StatementKind::SelectOrders || run.sent[k].kind == StatementKind::SelectItems by {
        if k > 0 {
            assert(run.sent[k] == queries[k - 1]);
        }
    }
    assert forall|k: int| 0 <= k < run.sent.len() && k < reads.len() implies storage.admits(
        #[trigger] run.sent[k],
        reads[k],
    ) by {
        if k == 0 {
            assert(run.sent[0] == orders_statement());
        } else {
            let i = k - 1;
            assert(run.sent[k] == queries[i]);
            assert(reads[k] == item_replies[i]);
            assert(order_of(rows[i]) == Some(joined[i]));
            assert(items_of(item_replies[i]->Rows_0) == Some(
                storage.linked_items(joined[i].order_uid),
            ));
            lemma_order_inserts_carry_their_rows(joined[i], 0);
        }
    }
    lemma_selects_are_answered(storage, run.sent, reads);
}

/// A save and a reading can succeed: the round trip is no empty promise.
///
/// From every state, for every order whose transaction is not stored yet and
/// for every number that no stored delivery has, there are replies that the
/// storage may give under which the order is saved and all orders are then read.
pub proof fn lemma_round_trip_can_happen(storage: Storage, order: OrderView, delivery_id: i64)
    requires
        delivery_numbered(storage.deliveries, delivery_id) is None,
        payment_keyed(storage.payments, order.payment.transaction) is None,
    ensures
        storage.saves_and_reads(
            order,
            accepting_replies(order, delivery_id),
            storage.with_order(order, delivery_id).reading_replies(),
        ),
{
    lemma_save_can_succeed(storage, order, delivery_id);
    lemma_reading_can_succeed(storage.with_order(order, delivery_id));
}

} // verus!
