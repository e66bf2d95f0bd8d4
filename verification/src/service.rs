//! The order service: the list of orders that the process has seen, and what
//! is answered to the two requests that the service takes.
//!
//! The list is filled once, at startup, with the orders read from the storage,
//! and grows by each order that was stored. It is never read back from the
//! storage afterwards.

use vstd::prelude::*;
use vstd::string::StringExecFns;
use crate::model::{clone_orders, orders_view, Order, OrderView};
use crate::save::{
    delivery_statement, first_failure, lemma_accepted_before_first_failure,
    lemma_save_follows_the_plan, new_delivery_id, payment_statement, save_run, SaveStep,
};
use crate::sql::{Error, ErrorView, ReplyView, StatementKind};

verus! {

/// The orders that the service has accepted or found at startup, oldest first.
#[derive(Debug, PartialEq, Eq)]
pub struct OrdersState {
    pub orders: Vec<Order>,
}

impl View for OrdersState {
    type V = Seq<OrderView>;

    open spec fn view(&self) -> Seq<OrderView> {
        orders_view(self.orders@)
    }
}

/// What a response carries.
#[derive(Debug, PartialEq, Eq)]
pub enum Body {
    /// One order, to be written as indented JSON.
    Order(Order),
    /// A list of orders, to be written as an indented JSON array.
    Orders(Vec<Order>),
    /// A text that is sent as it is.
    Text(String),
}

pub enum BodyView {
    Order(OrderView),
    Orders(Seq<OrderView>),
    Text(Seq<char>),
}

impl View for Body {
    type V = BodyView;

    open spec fn view(&self) -> BodyView {
        match self {
            Body::Order(order) => BodyView::Order(order@),
            Body::Orders(orders) => BodyView::Orders(orders_view(orders@)),
            Body::Text(text) => BodyView::Text(text@),
        }
    }
}

/// The answer to a request: an HTTP status and a body.
#[derive(Debug, PartialEq, Eq)]
pub struct Response {
    pub status: u16,
    pub body: Body,
}

pub struct ResponseView {
    pub status: u16,
    pub body: BodyView,
}

impl View for Response {
    type V = ResponseView;

    open spec fn view(&self) -> ResponseView {
        ResponseView { status: self.status, body: self.body@ }
    }
}

/// The status of a request that was served.
pub const STATUS_OK: u16 = 200;

/// The status of a request that failed in the storage.
pub const STATUS_INTERNAL_SERVER_ERROR: u16 = 500;

/// A text as a JSON string: in double quotes, with the escapes that JSON asks for.
pub uninterp spec fn json_string(text: Seq<char>) -> Seq<char>;

/// Writes `text` as a JSON string.
///
/// Trusted: the body builds a `serde_json::Value::String` and formats it with
/// `to_string`, which goes through the `Display` impl of `serde_json::Value`.
/// The contract only gives that output its name: it is a function of the text
/// alone.
#[verifier::external_body]
fn to_json_string(text: &str) -> (json: String)
    ensures
        json@ == json_string(text@),
{
    serde_json::Value::String(text.to_owned()).to_string()
}

/// A JSON object with `quoted`, which is taken to be a JSON value already,
/// under `message` and `false` under `success`. The keys stand in the order of
/// the alphabet.
pub open spec fn failure_frame(quoted: Seq<char>) -> Seq<char> {
    "{\"message\":"@ + quoted + ",\"success\":false}"@
}

/// The body that reports a failure: a JSON object with the failure's message,
/// as a JSON string, under `message` and `false` under `success`.
pub open spec fn failure_text(message: Seq<char>) -> Seq<char> {
    failure_frame(json_string(message))
}

/// Puts a message that is written as a JSON string already into the object
/// that reports a failure.
pub fn frame_failure(quoted: &str) -> (body: String)
    ensures
        body@ == failure_frame(quoted@),
{
    let mut body = String::from_str("{\"message\":");
    body.append(quoted);
    body.append(",\"success\":false}");
    body
}

/// Builds the body that reports a failure with the given message.
pub fn failure_body(message: &str) -> (body: String)
    ensures
        body@ == failure_text(message@),
{
    let quoted = to_json_string(message);
    frame_failure(quoted.as_str())
}

/// The list after an order was offered: one longer, with the order at its end,
/// where the order was stored; as it was, where it was not.
pub open spec fn orders_after(
    orders: Seq<OrderView>,
    order: OrderView,
    saved: Result<(), ErrorView>,
) -> Seq<OrderView> {
    match saved {
        Ok(_) => orders.push(order),
        Err(_) => orders,
    }
}

/// The answer to an order that was offered: the order itself, where it was
/// stored; the failure's message, where it was not.
pub open spec fn add_order_response(order: OrderView, saved: Result<(), ErrorView>) -> ResponseView {
    match saved {
        Ok(_) => ResponseView { status: STATUS_OK, body: BodyView::Order(order) },
        Err(e) => ResponseView {
            status: STATUS_INTERNAL_SERVER_ERROR,
            body: BodyView::Text(failure_text(Error::spec_message(e))),
        },
    }
}

impl OrdersState {
    /// The list at startup: the orders that were read from the storage, or
    /// none where reading them failed.
    pub fn at_startup(loaded: Result<Vec<Order>, Error>) -> (state: OrdersState)
        ensures
            match loaded {
                Ok(orders) => state@ == orders_view(orders@),
                Err(_) => state@ == Seq::<OrderView>::empty(),
            },
    {
        match loaded {
            Ok(orders) => OrdersState { orders },
            Err(_) => {
                let state = OrdersState { orders: Vec::new() };
                assert(state@ =~= Seq::<OrderView>::empty());
                state
            },
        }
    }
}

/// Finishes the acceptance of `order`, once `saved` says how storing it ended.
///
/// Where the order was stored, it is put at the end of the list and sent back
/// with status 200. Where it was not, the list stays as it was and the answer
/// is status 500 with the failure's message.
pub fn add_order(state: &mut OrdersState, order: Order, saved: Result<(), Error>) -> (response:
    Response)
    ensures
        final(state)@ == orders_after(old(state)@, order@, result_view(saved)),
        response@ == add_order_response(order@, result_view(saved)),
{
    match saved {
        Ok(_) => {
            let ghost before = state@;
            let kept = order.clone();
            state.orders.push(kept);
            assert(state@ =~= before.push(order@));
            Response { status: STATUS_OK, body: Body::Order(order) }
        },
        Err(e) => {
            let message = e.message();
            Response {
                status: STATUS_INTERNAL_SERVER_ERROR,
                body: Body::Text(failure_body(message.as_str())),
            }
        },
    }
}

/// How storing an order ended, with the error by its view.
pub open spec fn result_view(saved: Result<(), Error>) -> Result<(), ErrorView> {
    match saved {
        Ok(_) => Ok(()),
        Err(e) => Err(e@),
    }
}

/// Answers a request for the list: status 200 and the orders as the list holds
/// them. The storage is not asked.
pub fn get_orders(state: &OrdersState) -> (response: Response)
    ensures
        response@ == (ResponseView { status: STATUS_OK, body: BodyView::Orders(state@) }),
{
    Response { status: STATUS_OK, body: Body::Orders(clone_orders(&state.orders)) }
}

/// An order whose payment could not be inserted is not put on the list.
///
/// Let the storage accept the delivery's insert and fail the payment's. Then
/// the save sends these two statements and no other, so the order's row is
/// never inserted; it ends with the payment's failure, unchanged; and
/// `add_order`, given that end, leaves the list as it was and answers with
/// status 500.
pub proof fn lemma_failed_payment_adds_no_order(
    orders: Seq<OrderView>,
    order: OrderView,
    replies: Seq<ReplyView>,
)
    requires
        replies.len() >= 2,
        new_delivery_id(replies[0]) is Some,
        replies[1] is Failed,
    ensures
        ({
            let run = save_run(order, replies);
            let failure = Err::<(), ErrorView>(ErrorView::Storage(replies[1]->Failed_0));
            &&& run.sent == seq![
                delivery_statement(order.delivery),
                payment_statement(order.payment),
            ]
            &&& forall|k: int|
                0 <= k < run.sent.len() ==> (#[trigger] run.sent[k]).kind
                    != StatementKind::InsertOrder
            &&& SaveStep::spec_outcome(run.end) == Some(failure)
            &&& orders_after(orders, order, failure) == orders
            &&& add_order_response(order, failure).status == STATUS_INTERNAL_SERVER_ERROR
        }),
{
    let id = new_delivery_id(replies[0])->0;
    lemma_save_follows_the_plan(order, replies, id);
    lemma_accepted_before_first_failure(replies);
    assert(first_failure(replies) == 1);
    assert(save_run(order, replies).sent =~= seq![
        delivery_statement(order.delivery),
        payment_statement(order.payment),
    ]);
}

} // verus!
