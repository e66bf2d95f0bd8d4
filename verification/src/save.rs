//! The write path: the statements that store one order, and the order in which
//! they are sent.
//!
//! Storing an order takes `3 + 2 * n` statements for an order of `n` items: the
//! delivery, the payment, the order itself, and then for each item the item and
//! the row that links it to the order. The statements are not one atomic unit:
//! when one of them fails, nothing more is sent, and what the earlier ones wrote
//! stays written.

use vstd::prelude::*;
use crate::model::{Delivery, DeliveryView, Item, ItemView, Order, OrderView, Payment, PaymentView};
use crate::sql::{
    leading_big_int, Error, ErrorView, Reply, ReplyView, SqlValue, SqlValueView, Statement,
    StatementKind, StatementView,
};

verus! {

/// The statement that inserts a delivery. The storage answers it with one row
/// whose first column is the number it gave the delivery.
pub open spec fn delivery_statement(delivery: DeliveryView) -> StatementView {
    StatementView {
        kind: StatementKind::InsertDelivery,
        params: seq![
            SqlValueView::Text(delivery.name),
            SqlValueView::Text(delivery.phone),
            SqlValueView::Text(delivery.zip),
            SqlValueView::Text(delivery.city),
            SqlValueView::Text(delivery.address),
            SqlValueView::Text(delivery.region),
            SqlValueView::Text(delivery.email),
        ],
    }
}

/// The statement that inserts a payment.
pub open spec fn payment_statement(payment: PaymentView) -> StatementView {
    StatementView {
        kind: StatementKind::InsertPayment,
        params: seq![
            SqlValueView::Text(payment.transaction),
            SqlValueView::Text(payment.request_id),
            SqlValueView::Text(payment.currency),
            SqlValueView::Text(payment.provider),
            SqlValueView::Unsigned(payment.amount),
            SqlValueView::Unsigned(payment.payment_dt),
            SqlValueView::Text(payment.bank),
            SqlValueView::Unsigned(payment.delivery_cost),
            SqlValueView::Unsigned(payment.goods_total),
            SqlValueView::Unsigned(payment.custom_fee),
        ],
    }
}

/// The statement that inserts the order's own row. It refers to the delivery by
/// the number the storage gave it and to the payment by its transaction.
pub open spec fn order_statement(order: OrderView, delivery_id: i64) -> StatementView {
    StatementView {
        kind: StatementKind::InsertOrder,
        params: seq![
            SqlValueView::Text(order.order_uid),
            SqlValueView::Text(order.track_number),
            SqlValueView::Text(order.entry),
            SqlValueView::BigInt(delivery_id),
            SqlValueView::Text(order.payment.transaction),
            SqlValueView::Text(order.locale),
            SqlValueView::Text(order.internal_signature),
            SqlValueView::Text(order.customer_id),
            SqlValueView::Text(order.delivery_service),
            SqlValueView::Text(order.shardkey),
            SqlValueView::Int(order.sm_id),
            SqlValueView::Text(order.date_created),
            SqlValueView::Text(order.oof_shard),
        ],
    }
}

/// The statement that inserts an item.
pub open spec fn item_statement(item: ItemView) -> StatementView {
    StatementView {
        kind: StatementKind::InsertItem,
        params: seq![
            SqlValueView::Unsigned(item.chrt_id),
            SqlValueView::Text(item.track_number),
            SqlValueView::Unsigned(item.price),
            SqlValueView::Text(item.rid),
            SqlValueView::Text(item.name),
            SqlValueView::Unsigned(item.sale),
            SqlValueView::Text(item.size),
            SqlValueView::Unsigned(item.total_price),
            SqlValueView::Unsigned(item.nm_id),
            SqlValueView::Text(item.brand),
            SqlValueView::Unsigned(item.status),
        ],
    }
}

/// The statement that links an item to an order.
pub open spec fn order_item_statement(order_uid: Seq<char>, chrt_id: u32) -> StatementView {
    StatementView {
        kind: StatementKind::InsertOrderItem,
        params: seq![SqlValueView::Text(order_uid), SqlValueView::Unsigned(chrt_id)],
    }
}

fn text(s: &String) -> (value: SqlValue)
    ensures
        value@ == SqlValueView::Text(s@),
{
    SqlValue::Text(s.clone())
}

/// Builds the statement that inserts `delivery`.
pub fn insert_delivery(delivery: &Delivery) -> (statement: Statement)
    ensures
        statement@ == delivery_statement(delivery@),
{
    let params = vec![
        text(&delivery.name),
        text(&delivery.phone),
        text(&delivery.zip),
        text(&delivery.city),
        text(&delivery.address),
        text(&delivery.region),
        text(&delivery.email),
    ];
    let statement = Statement { kind: StatementKind::InsertDelivery, params };
    assert(statement@.params =~= delivery_statement(delivery@).params);
    statement
}

/// Builds the statement that inserts `payment`.
pub fn insert_payment(payment: &Payment) -> (statement: Statement)
    ensures
        statement@ == payment_statement(payment@),
{
    let params = vec![
        text(&payment.transaction),
        text(&payment.request_id),
        text(&payment.currency),
        text(&payment.provider),
        SqlValue::Unsigned(payment.amount),
        SqlValue::Unsigned(payment.payment_dt),
        text(&payment.bank),
        SqlValue::Unsigned(payment.delivery_cost),
        SqlValue::Unsigned(payment.goods_total),
        SqlValue::Unsigned(payment.custom_fee),
    ];
    let statement = Statement { kind: StatementKind::InsertPayment, params };
    assert(statement@.params =~= payment_statement(payment@).params);
    statement
}

/// Builds the statement that inserts the row of `order`, once the storage has
/// given the order's delivery the number `delivery_id`.
pub fn insert_order(order: &Order, delivery_id: i64) -> (statement: Statement)
    ensures
        statement@ == order_statement(order@, delivery_id),
{
    let params = vec![
        text(&order.order_uid),
        text(&order.track_number),
        text(&order.entry),
        SqlValue::BigInt(delivery_id),
        text(&order.payment.transaction),
        text(&order.locale),
        text(&order.internal_signature),
        text(&order.customer_id),
        text(&order.delivery_service),
        text(&order.shardkey),
        SqlValue::Int(order.sm_id),
        text(&order.date_created),
        text(&order.oof_shard),
    ];
    let statement = Statement { kind: StatementKind::InsertOrder, params };
    assert(statement@.params =~= order_statement(order@, delivery_id).params);
    statement
}

/// Builds the statement that inserts `item`.
pub fn insert_item(item: &Item) -> (statement: Statement)
    ensures
        statement@ == item_statement(item@),
{
    let params = vec![
        SqlValue::Unsigned(item.chrt_id),
        text(&item.track_number),
        SqlValue::Unsigned(item.price),
        text(&item.rid),
        text(&item.name),
        SqlValue::Unsigned(item.sale),
        text(&item.size),
        SqlValue::Unsigned(item.total_price),
        SqlValue::Unsigned(item.nm_id),
        text(&item.brand),
        SqlValue::Unsigned(item.status),
    ];
    let statement = Statement { kind: StatementKind::InsertItem, params };
    assert(statement@.params =~= item_statement(item@).params);
    statement
}

/// Builds the statement that links `item` to `order`.
pub fn insert_order_item(order: &Order, item: &Item) -> (statement: Statement)
    ensures
        statement@ == order_item_statement(order@.order_uid, item@.chrt_id),
{
    let params = vec![text(&order.order_uid), SqlValue::Unsigned(item.chrt_id)];
    let statement = Statement { kind: StatementKind::InsertOrderItem, params };
    assert(statement@.params =~= order_item_statement(order@.order_uid, item@.chrt_id).params);
    statement
}

/// The statement that was sent last and whose reply is awaited.
#[derive(Clone, Copy, Debug, PartialEq, Eq, Structural)]
pub enum SaveProgress {
    /// The delivery's insert.
    Delivery,
    /// The payment's insert; the storage gave the delivery the number `delivery_id`.
    Payment { delivery_id: i64 },
    /// The insert of the order's own row.
    Order,
    /// The insert of the item at `index`.
    Item { index: usize },
    /// The insert of the row that links the item at `index` to the order.
    Link { index: usize },
}

pub enum SaveProgressView {
    Delivery,
    Payment { delivery_id: i64 },
    Order,
    Item { index: int },
    Link { index: int },
}

impl View for SaveProgress {
    type V = SaveProgressView;

    open spec fn view(&self) -> SaveProgressView {
        match self {
            SaveProgress::Delivery => SaveProgressView::Delivery,
            SaveProgress::Payment { delivery_id } => SaveProgressView::Payment {
                delivery_id: *delivery_id,
            },
            SaveProgress::Order => SaveProgressView::Order,
            SaveProgress::Item { index } => SaveProgressView::Item { index: *index as int },
            SaveProgress::Link { index } => SaveProgressView::Link { index: *index as int },
        }
    }
}

/// What to do next while an order is being stored.
#[derive(Debug, PartialEq, Eq)]
pub enum SaveStep {
    /// Send `statement` to the storage, then call `save_order` with `progress`
    /// and the storage's reply.
    Send { progress: SaveProgress, statement: Statement },
    /// Every statement was accepted: the order is stored.
    Saved,
    /// A statement was not accepted. Nothing more is to be sent; what was
    /// written before is not taken back.
    Failed(Error),
}

pub enum SaveStepView {
    Send { progress: SaveProgressView, statement: StatementView },
    Saved,
    Failed(ErrorView),
}

impl View for SaveStep {
    type V = SaveStepView;

    open spec fn view(&self) -> SaveStepView {
        match self {
            SaveStep::Send { progress, statement } => SaveStepView::Send {
                progress: progress@,
                statement: statement@,
            },
            SaveStep::Saved => SaveStepView::Saved,
            SaveStep::Failed(e) => SaveStepView::Failed(e@),
        }
    }
}

/// The number that the storage gave a new delivery: the reply to the delivery's
/// insert must be exactly one row, with a 64-bit integer in its first column.
pub open spec fn new_delivery_id(reply: ReplyView) -> Option<i64> {
    match reply {
        ReplyView::Rows(rows) => if rows.len() == 1 {
            leading_big_int(rows[0])
        } else {
            None
        },
        _ => None,
    }
}

/// The first step of storing `order`: its delivery is inserted.
pub open spec fn save_first(order: OrderView) -> SaveStepView {
    SaveStepView::Send {
        progress: SaveProgressView::Delivery,
        statement: delivery_statement(order.delivery),
    }
}

/// The step that inserts the item at `index`, or the end where no item is there.
pub open spec fn item_step(order: OrderView, index: int) -> SaveStepView {
    if 0 <= index < order.items.len() {
        SaveStepView::Send {
            progress: SaveProgressView::Item { index },
            statement: item_statement(order.items[index]),
        }
    } else {
        SaveStepView::Saved
    }
}

/// The step that follows `reply`, the storage's answer to the statement that
/// `progress` names.
///
/// A failure ends the work with the storage's error as it came. Any other reply
/// means that the statement ran; only the reply to the delivery's insert is
/// read, for the delivery's number.
pub open spec fn save_next(order: OrderView, progress: SaveProgressView, reply: ReplyView) -> SaveStepView {
    match reply {
        ReplyView::Failed(e) => SaveStepView::Failed(ErrorView::Storage(e)),
        _ => match progress {
            SaveProgressView::Delivery => match new_delivery_id(reply) {
                Some(delivery_id) => SaveStepView::Send {
                    progress: SaveProgressView::Payment { delivery_id },
                    statement: payment_statement(order.payment),
                },
                None => SaveStepView::Failed(ErrorView::Unreadable),
            },
            SaveProgressView::Payment { delivery_id } => SaveStepView::Send {
                progress: SaveProgressView::Order,
                statement: order_statement(order, delivery_id),
            },
            SaveProgressView::Order => item_step(order, 0),
            SaveProgressView::Item { index } => if 0 <= index < order.items.len() {
                SaveStepView::Send {
                    progress: SaveProgressView::Link { index },
                    statement: order_item_statement(order.order_uid, order.items[index].chrt_id),
                }
            } else {
                SaveStepView::Saved
            },
            SaveProgressView::Link { index } => item_step(order, index + 1),
        },
    }
}

/// Reads the number of a new delivery from the reply to its insert.
pub fn read_delivery_id(reply: &Reply) -> (id: Option<i64>)
    ensures
        id == new_delivery_id(reply@),
{
    match reply {
        Reply::Rows(rows) => {
            if rows.len() == 1 {
                rows[0].leading_big_int()
            } else {
                None
            }
        },
        _ => None,
    }
}

fn insert_item_at(order: &Order, index: usize) -> (step: SaveStep)
    ensures
        step@ == item_step(order@, index as int),
{
    if index < order.items.len() {
        SaveStep::Send {
            progress: SaveProgress::Item { index },
            statement: insert_item(&order.items[index]),
        }
    } else {
        SaveStep::Saved
    }
}

/// Begins to store `order`: the first statement to send is the delivery's insert.
pub fn start_save_order(order: &Order) -> (step: SaveStep)
    ensures
        step@ == save_first(order@),
{
    SaveStep::Send {
        progress: SaveProgress::Delivery,
        statement: insert_delivery(&order.delivery),
    }
}

/// Goes on storing `order` after the storage has answered the statement that
/// `progress` names with `reply`.
///
/// The statements are sent in a fixed order, each only after the one before it
/// was accepted: delivery, payment, order, and then for each item, in the
/// order of `order.items`, the item and its link to the order. The order's row
/// carries the delivery's number as the storage gave it. When the storage fails
/// a statement, the result is that failure, unchanged, and nothing more is sent.
pub fn save_order(order: &Order, progress: SaveProgress, reply: Reply) -> (step: SaveStep)
    ensures
        step@ == save_next(order@, progress@, reply@),
{
    let delivery_id = read_delivery_id(&reply);
    if let Reply::Failed(e) = reply {
        return SaveStep::Failed(Error::Storage(e));
    }
    match progress {
        SaveProgress::Delivery => match delivery_id {
            Some(delivery_id) => SaveStep::Send {
                progress: SaveProgress::Payment { delivery_id },
                statement: insert_payment(&order.payment),
            },
            None => SaveStep::Failed(Error::Unreadable),
        },
        SaveProgress::Payment { delivery_id } => SaveStep::Send {
            progress: SaveProgress::Order,
            statement: insert_order(order, delivery_id),
        },
        SaveProgress::Order => insert_item_at(order, 0),
        SaveProgress::Item { index } => {
            if index < order.items.len() {
                SaveStep::Send {
                    progress: SaveProgress::Link { index },
                    statement: insert_order_item(order, &order.items[index]),
                }
            } else {
                SaveStep::Saved
            }
        },
        SaveProgress::Link { index } => {
            if index < order.items.len() {
                insert_item_at(order, index + 1)
            } else {
                SaveStep::Saved
            }
        },
    }
}

impl SaveStep {
    /// How the work ended, where it has ended.
    pub open spec fn spec_outcome(step: SaveStepView) -> Option<Result<(), ErrorView>> {
        match step {
            SaveStepView::Send { .. } => None,
            SaveStepView::Saved => Some(Ok(())),
            SaveStepView::Failed(e) => Some(Err(e)),
        }
    }

    /// How the work ended: `None` while a statement is still to be sent.
    pub fn outcome(self) -> (outcome: Option<Result<(), Error>>)
        ensures
            match outcome {
                None => Self::spec_outcome(self@) is None,
                Some(Ok(_)) => Self::spec_outcome(self@) == Some(Ok::<(), ErrorView>(())),
                Some(Err(e)) => Self::spec_outcome(self@) == Some(Err::<(), ErrorView>(e@)),
            },
    {
        match self {
            SaveStep::Send { .. } => None,
            SaveStep::Saved => Some(Ok(())),
            SaveStep::Failed(e) => Some(Err(e)),
        }
    }
}

/// The statement at place `k` of the plan for `order`.
pub open spec fn plan_statement(order: OrderView, delivery_id: i64, k: int) -> StatementView {
    if k == 0 {
        delivery_statement(order.delivery)
    } else if k == 1 {
        payment_statement(order.payment)
    } else if k == 2 {
        order_statement(order, delivery_id)
    } else if (k - 3) % 2 == 0 {
        item_statement(order.items[(k - 3) / 2])
    } else {
        order_item_statement(order.order_uid, order.items[(k - 3) / 2].chrt_id)
    }
}

/// The statements that store `order`, in the order in which they are sent,
/// where the storage gives the order's delivery the number `delivery_id`: the
/// delivery, the payment, the order's row, and for each item in turn the item
/// and its link.
pub open spec fn save_plan(order: OrderView, delivery_id: i64) -> Seq<StatementView> {
    Seq::new((3 + 2 * order.items.len()) as nat, |k: int| plan_statement(order, delivery_id, k))
}

/// What was sent in the course of some work, and where the work stands.
pub struct SaveTrace {
    /// The statements that were sent, the first one first.
    pub sent: Seq<StatementView>,
    /// The step that the last reply led to.
    pub end: SaveStepView,
}

/// The course of the work from `step` on, where the storage answers the
/// statements one after the other with `replies`. Replies that come after the
/// work has ended are not looked at.
pub open spec fn save_trace(order: OrderView, step: SaveStepView, replies: Seq<ReplyView>) -> SaveTrace
    decreases replies.len(),
{
    match step {
        SaveStepView::Send { progress, statement } => if replies.len() == 0 {
            SaveTrace { sent: seq![statement], end: step }
        } else {
            let rest = save_trace(
                order,
                save_next(order, progress, replies[0]),
                replies.drop_first(),
            );
            SaveTrace { sent: seq![statement] + rest.sent, end: rest.end }
        },
        _ => SaveTrace { sent: Seq::empty(), end: step },
    }
}

/// The course of storing `order` from the start.
pub open spec fn save_run(order: OrderView, replies: Seq<ReplyView>) -> SaveTrace {
    save_trace(order, save_first(order), replies)
}

/// The place of the first failure among `replies`, or their number where none
/// is a failure.
pub open spec fn first_failure(replies: Seq<ReplyView>) -> int
    decreases replies.len(),
{
    if replies.len() == 0 || replies[0] is Failed {
        0
    } else {
        1 + first_failure(replies.drop_first())
    }
}

/// What `SaveProgress` says of the statement at place `k` of a plan, from the
/// order's row on.
pub open spec fn progress_at(k: int) -> SaveProgressView {
    if k <= 2 {
        SaveProgressView::Order
    } else if (k - 3) % 2 == 0 {
        SaveProgressView::Item { index: (k - 3) / 2 }
    } else {
        SaveProgressView::Link { index: (k - 3) / 2 }
    }
}

/// `first_failure` is the place of a failure, and no reply before it is one.
pub proof fn lemma_accepted_before_first_failure(replies: Seq<ReplyView>)
    ensures
        0 <= first_failure(replies) <= replies.len(),
        first_failure(replies) < replies.len() ==> replies[first_failure(replies)] is Failed,
        forall|j: int| 0 <= j < first_failure(replies) ==> !(#[trigger] replies[j] is Failed),
    decreases replies.len(),
{
    if replies.len() == 0 || replies[0] is Failed {
    } else {
        let rest = replies.drop_first();
        lemma_accepted_before_first_failure(rest);
        assert forall|j: int| 0 <= j < first_failure(replies) implies !(#[trigger] replies[j] is Failed) by {
            if j > 0 {
                assert(replies[j] == rest[j - 1]);
            }
        }
    }
}

proof fn lemma_save_tail(order: OrderView, delivery_id: i64, k: int, replies: Seq<ReplyView>)
    requires
        2 <= k < save_plan(order, delivery_id).len(),
    ensures
        ({
            let plan = save_plan(order, delivery_id);
            let f = first_failure(replies);
            let upto = if k + f + 1 <= plan.len() { k + f + 1 } else { plan.len() as int };
            let trace = save_trace(
                order,
                SaveStepView::Send { progress: progress_at(k), statement: plan[k] },
                replies,
            );
            &&& 0 <= f <= replies.len()
            &&& trace.sent == plan.subrange(k, upto)
            &&& k + f >= plan.len() ==> trace.end == SaveStepView::Saved
            &&& k + f < plan.len() && f < replies.len() ==> replies[f] is Failed && trace.end
                == SaveStepView::Failed(ErrorView::Storage(replies[f]->Failed_0))
            &&& k + f < plan.len() && f == replies.len() ==> trace.end == SaveStepView::Send {
                progress: progress_at(k + f),
                statement: plan[k + f],
            }
        }),
    decreases replies.len(),
{
    let plan = save_plan(order, delivery_id);
    let f = first_failure(replies);
    let step = SaveStepView::Send { progress: progress_at(k), statement: plan[k] };
    let trace = save_trace(order, step, replies);
    reveal_with_fuel(save_trace, 2);
    lemma_accepted_before_first_failure(replies);
    if replies.len() == 0 {
        assert(trace.sent =~= plan.subrange(k, k + 1));
    } else if replies[0] is Failed {
        assert(trace.sent =~= plan.subrange(k, k + 1));
    } else {
        let rest = replies.drop_first();
        let next = save_next(order, progress_at(k), replies[0]);
        lemma_accepted_before_first_failure(rest);
        assert(f == 1 + first_failure(rest));
        if k + 1 < plan.len() {
            assert(next == SaveStepView::Send {
                progress: progress_at(k + 1),
                statement: plan[k + 1],
            });
            lemma_save_tail(order, delivery_id, k + 1, rest);
            let upto = if k + f + 1 <= plan.len() { k + f + 1 } else { plan.len() as int };
            assert(trace.sent =~= plan.subrange(k, upto));
            if k + f < plan.len() && f < replies.len() {
                assert(replies[f] == rest[f - 1]);
            }
        } else {
            assert(next == SaveStepView::Saved);
            assert(trace.sent =~= plan.subrange(k, plan.len() as int));
        }
    }
}

/// The course of storing an order, for every way in which the storage may answer.
///
/// Let `f` be the number of replies before the first failure, and let the
/// first reply, where it is no failure, give the delivery the number
/// `delivery_id`. Then the statements sent are the first `f + 1` of the plan, or
/// the whole plan where that is shorter: nothing is sent after a failure, and
/// nothing out of order. The order is stored exactly when the whole plan was
/// accepted. A failure ends the work with the storage's error as it came.
/// While replies are outstanding, the next statement of the plan is waiting.
pub proof fn lemma_save_follows_the_plan(order: OrderView, replies: Seq<ReplyView>, delivery_id: i64)
    requires
        replies.len() > 0 && !(replies[0] is Failed) ==> new_delivery_id(replies[0]) == Some(
            delivery_id,
        ),
    ensures
        ({
            let plan = save_plan(order, delivery_id);
            let f = first_failure(replies);
            let upto = if f + 1 <= plan.len() { f + 1 } else { plan.len() as int };
            let run = save_run(order, replies);
            &&& 0 <= f <= replies.len()
            &&& run.sent == plan.take(upto)
            &&& f >= plan.len() ==> run.end == SaveStepView::Saved
            &&& f < plan.len() && f < replies.len() ==> replies[f] is Failed && run.end
                == SaveStepView::Failed(ErrorView::Storage(replies[f]->Failed_0))
            &&& f < plan.len() && f == replies.len() ==> run.end is Send && run.end->statement
                == plan[f]
        }),
{
    let plan = save_plan(order, delivery_id);
    let f = first_failure(replies);
    let run = save_run(order, replies);
    reveal_with_fuel(save_trace, 3);
    lemma_accepted_before_first_failure(replies);
    if replies.len() == 0 || replies[0] is Failed {
        assert(run.sent =~= plan.take(1));
    } else {
        let rest = replies.drop_first();
        lemma_accepted_before_first_failure(rest);
        let second = save_next(order, SaveProgressView::Delivery, replies[0]);
        let after_first = save_trace(order, second, rest);
        assert(second == SaveStepView::Send {
            progress: SaveProgressView::Payment { delivery_id },
            statement: plan[1],
        });
        if rest.len() == 0 || rest[0] is Failed {
            assert(run.sent =~= plan.take(2));
            if rest.len() > 0 {
                assert(replies[1] == rest[0]);
            }
        } else {
            let tail = rest.drop_first();
            lemma_accepted_before_first_failure(tail);
            lemma_save_tail(order, delivery_id, 2, tail);
            let third = save_next(order, SaveProgressView::Payment { delivery_id }, rest[0]);
            assert(third == SaveStepView::Send { progress: progress_at(2), statement: plan[2] });
            let upto = if f + 1 <= plan.len() { f + 1 } else { plan.len() as int };
            assert(f == 2 + first_failure(tail));
            assert(run.sent =~= plan.take(upto));
            if f < plan.len() && f < replies.len() {
                assert(replies[f] == tail[f - 2]);
            }
        }
    }
}

/// Where the storage accepts the delivery's insert but its reply does not hold
/// the delivery's number, the work ends there: only the delivery's insert was
/// sent, and the result says that the reply could not be read.
pub proof fn lemma_save_needs_the_delivery_id(order: OrderView, replies: Seq<ReplyView>)
    requires
        replies.len() > 0,
        !(replies[0] is Failed),
        new_delivery_id(replies[0]) is None,
    ensures
        save_run(order, replies).sent == seq![delivery_statement(order.delivery)],
        save_run(order, replies).end == SaveStepView::Failed(ErrorView::Unreadable),
{
    reveal_with_fuel(save_trace, 2);
    assert(save_run(order, replies).sent =~= seq![delivery_statement(order.delivery)]);
}

/// An order without items is stored by exactly three statements, the
/// delivery, the payment and the order's row, and is stored when the storage
/// accepts the three.
pub proof fn lemma_save_without_items(order: OrderView, replies: Seq<ReplyView>, delivery_id: i64)
    requires
        order.items.len() == 0,
        replies.len() >= 3,
        new_delivery_id(replies[0]) == Some(delivery_id),
        !(replies[0] is Failed),
        !(replies[1] is Failed),
        !(replies[2] is Failed),
    ensures
        save_run(order, replies).sent == seq![
            delivery_statement(order.delivery),
            payment_statement(order.payment),
            order_statement(order, delivery_id),
        ],
        save_run(order, replies).end == SaveStepView::Saved,
{
    lemma_save_follows_the_plan(order, replies, delivery_id);
    lemma_accepted_before_first_failure(replies);
    let plan = save_plan(order, delivery_id);
    let f = first_failure(replies);
    if f < 3 {
        assert(replies[f] is Failed);
    }
    assert(plan.take(3) =~= seq![
        delivery_statement(order.delivery),
        payment_statement(order.payment),
        order_statement(order, delivery_id),
    ]);
}

/// Storing an order reads nothing: every statement that a save sends is an
/// insert, however the storage answers.
pub proof fn lemma_save_sends_only_inserts(order: OrderView, replies: Seq<ReplyView>)
    ensures
        forall|k: int|
            0 <= k < save_run(order, replies).sent.len() ==> {
                let kind = (#[trigger] save_run(order, replies).sent[k]).kind;
                kind != StatementKind::SelectOrders && kind != StatementKind::SelectItems
            },
{
    let delivery_id = if replies.len() > 0 && new_delivery_id(replies[0]) is Some {
        new_delivery_id(replies[0])->0
    } else {
        0
    };
    if replies.len() > 0 && !(replies[0] is Failed) && new_delivery_id(replies[0]) is None {
        lemma_save_needs_the_delivery_id(order, replies);
    } else {
        lemma_save_follows_the_plan(order, replies, delivery_id);
    }
}

} // verus!
