//! Values, rows and statements: what travels between the library and the storage.

use vstd::prelude::*;
use vstd::string::{StrSliceExecFns, StringExecFns};

verus! {

/// One value of a statement's parameter list or of a row's column.
#[derive(Debug, PartialEq, Eq)]
pub enum SqlValue {
    Text(String),
    Int(i32),
    BigInt(i64),
    Unsigned(u32),
    Null,
}

pub enum SqlValueView {
    Text(Seq<char>),
    Int(i32),
    BigInt(i64),
    Unsigned(u32),
    Null,
}

impl View for SqlValue {
    type V = SqlValueView;

    open spec fn view(&self) -> SqlValueView {
        match self {
            SqlValue::Text(s) => SqlValueView::Text(s@),
            SqlValue::Int(n) => SqlValueView::Int(*n),
            SqlValue::BigInt(n) => SqlValueView::BigInt(*n),
            SqlValue::Unsigned(n) => SqlValueView::Unsigned(*n),
            SqlValue::Null => SqlValueView::Null,
        }
    }
}

impl Clone for SqlValue {
    fn clone(&self) -> (copy: Self)
        ensures
            copy == *self,
    {
        match self {
            SqlValue::Text(s) => SqlValue::Text(s.clone()),
            SqlValue::Int(n) => SqlValue::Int(*n),
            SqlValue::BigInt(n) => SqlValue::BigInt(*n),
            SqlValue::Unsigned(n) => SqlValue::Unsigned(*n),
            SqlValue::Null => SqlValue::Null,
        }
    }
}

/// The values of a list, each by its view, in the list's order.
pub open spec fn values_view(values: Seq<SqlValue>) -> Seq<SqlValueView> {
    Seq::new(values.len(), |i: int| values[i]@)
}

/// A named value of a row.
#[derive(Debug, PartialEq, Eq)]
pub struct Column {
    pub name: String,
    pub value: SqlValue,
}

pub struct ColumnView {
    pub name: Seq<char>,
    pub value: SqlValueView,
}

impl View for Column {
    type V = ColumnView;

    open spec fn view(&self) -> ColumnView {
        ColumnView { name: self.name@, value: self.value@ }
    }
}

/// One row of a result: its columns in the order in which the storage gave them.
#[derive(Debug, PartialEq, Eq)]
pub struct Row {
    pub columns: Vec<Column>,
}

impl View for Row {
    type V = Seq<ColumnView>;

    open spec fn view(&self) -> Seq<ColumnView> {
        Seq::new(self.columns@.len(), |i: int| self.columns@[i]@)
    }
}

/// The rows of a list, each by its view, in the list's order.
pub open spec fn rows_view(rows: Seq<Row>) -> Seq<Seq<ColumnView>> {
    Seq::new(rows.len(), |i: int| rows[i]@)
}

/// The value of the first column at or after `from` that is called `name`.
pub open spec fn find_from(row: Seq<ColumnView>, name: Seq<char>, from: int) -> Option<SqlValueView>
    decreases row.len() - from,
{
    if from < 0 || from >= row.len() {
        None
    } else if row[from].name == name {
        Some(row[from].value)
    } else {
        find_from(row, name, from + 1)
    }
}

/// The value of the first column called `name`. Names are compared letter for letter.
pub open spec fn find(row: Seq<ColumnView>, name: Seq<char>) -> Option<SqlValueView> {
    find_from(row, name, 0)
}

/// The text under `name`, where the first column of that name holds a text.
pub open spec fn text_at(row: Seq<ColumnView>, name: Seq<char>) -> Option<Seq<char>> {
    match find(row, name) {
        Some(SqlValueView::Text(t)) => Some(t),
        _ => None,
    }
}

/// The number under `name`, where the first column of that name holds an unsigned number.
pub open spec fn unsigned_at(row: Seq<ColumnView>, name: Seq<char>) -> Option<u32> {
    match find(row, name) {
        Some(SqlValueView::Unsigned(n)) => Some(n),
        _ => None,
    }
}

/// The number under `name`, where the first column of that name holds a 32-bit integer.
pub open spec fn integer_at(row: Seq<ColumnView>, name: Seq<char>) -> Option<i32> {
    match find(row, name) {
        Some(SqlValueView::Int(n)) => Some(n),
        _ => None,
    }
}

/// The 64-bit integer in the first column of a row, whatever the column is called.
pub open spec fn leading_big_int(row: Seq<ColumnView>) -> Option<i64> {
    if row.len() == 0 {
        None
    } else {
        match row[0].value {
            SqlValueView::BigInt(n) => Some(n),
            _ => None,
        }
    }
}

impl Row {
    /// The value of the first column called `name`, if there is one.
    pub fn value(&self, name: &str) -> (found: Option<&SqlValue>)
        ensures
            match found {
                Some(v) => find(self@, name@) == Some(v@),
                None => find(self@, name@) is None,
            },
    {
        let needle = String::from_str(name);
        let mut i: usize = 0;
        while i < self.columns.len()
            invariant
                i <= self.columns@.len(),
                needle@ == name@,
                find(self@, name@) == find_from(self@, name@, i as int),
            decreases self.columns@.len() - i,
        {
            if self.columns[i].name == needle {
                return Some(&self.columns[i].value);
            }
            i += 1;
        }
        None
    }

    /// The text under `name`.
    pub fn text(&self, name: &str) -> (found: Option<String>)
        ensures
            match found {
                Some(s) => text_at(self@, name@) == Some(s@),
                None => text_at(self@, name@) is None,
            },
    {
        match self.value(name) {
            Some(SqlValue::Text(s)) => Some(s.clone()),
            _ => None,
        }
    }

    /// The unsigned number under `name`.
    pub fn unsigned(&self, name: &str) -> (found: Option<u32>)
        ensures
            found == unsigned_at(self@, name@),
    {
        match self.value(name) {
            Some(SqlValue::Unsigned(n)) => Some(*n),
            _ => None,
        }
    }

    /// The 32-bit integer under `name`.
    pub fn integer(&self, name: &str) -> (found: Option<i32>)
        ensures
            found == integer_at(self@, name@),
    {
        match self.value(name) {
            Some(SqlValue::Int(n)) => Some(*n),
            _ => None,
        }
    }

    /// The 64-bit integer in the row's first column.
    pub fn leading_big_int(&self) -> (found: Option<i64>)
        ensures
            found == leading_big_int(self@),
    {
        if self.columns.len() == 0 {
            return None;
        }
        match &self.columns[0].value {
            SqlValue::BigInt(n) => Some(*n),
            _ => None,
        }
    }
}

/// The seven statements that the repository sends.
#[derive(Clone, Copy, Debug, PartialEq, Eq, Structural)]
pub enum StatementKind {
    InsertDelivery,
    InsertPayment,
    InsertOrder,
    InsertItem,
    InsertOrderItem,
    SelectOrders,
    SelectItems,
}

/// What a statement gives back when the storage accepts it.
#[derive(Clone, Copy, Debug, PartialEq, Eq, Structural)]
pub enum Fetch {
    /// Nothing but the fact that it ran.
    Nothing,
    /// Exactly one row.
    OneRow,
    /// Any number of rows.
    Rows,
}

impl StatementKind {
    /// The statement's text, with `$1`, `$2`, ... where its parameters go.
    pub open spec fn spec_sql(self) -> Seq<char> {
        match self {
            StatementKind::InsertDelivery =>
                "INSERT INTO delivery (name, phone, zip, city, address, region, email) VALUES ($1, $2, $3, $4, $5, $6, $7) RETURNING delivery_id"@,
            StatementKind::InsertPayment =>
                "INSERT INTO payment (transaction, request_id, currency, provider, amount, payment_dt, bank, delivery_cost, goods_total, custom_fee) VALUES ($1, $2, $3, $4, $5, $6, $7, $8, $9, $10)"@,
            StatementKind::InsertOrder =>
                "INSERT INTO order_info (order_uid, track_number, entry, delivery_id, payment_transaction, locale, internal_signature, customer_id, delivery_service, shardkey, sm_id, date_created, oof_shard) VALUES ($1, $2, $3, $4, $5, $6, $7, $8, $9, $10, $11, $12, $13)"@,
            StatementKind::InsertItem =>
                "INSERT INTO item (chrt_id, track_number, price, rid, name, sale, size, total_price, nm_id, brand, status) VALUES ($1, $2, $3, $4, $5, $6, $7, $8, $9, $10, $11)"@,
            StatementKind::InsertOrderItem =>
                "INSERT INTO order_item (order_uid, item_chrt_id) VALUES ($1, $2)"@,
            StatementKind::SelectOrders =>
                "SELECT oi.order_uid, oi.track_number, oi.entry, oi.locale, oi.internal_signature, oi.customer_id, oi.delivery_service, oi.shardkey, oi.sm_id, oi.date_created, oi.oof_shard, d.delivery_id, d.name, d.phone, d.zip, d.city, d.address, d.region, d.email, p.transaction, p.request_id, p.currency, p.provider, p.amount, p.payment_dt, p.bank, p.delivery_cost, p.goods_total, p.custom_fee FROM order_info oi JOIN delivery d ON oi.delivery_id = d.delivery_id JOIN payment p ON oi.payment_transaction = p.transaction"@,
            StatementKind::SelectItems =>
                "SELECT i.chrt_id, i.track_number, i.price, i.rid, i.name, i.sale, i.size, i.total_price, i.nm_id, i.brand, i.status FROM item i JOIN order_item oi ON i.chrt_id = oi.item_chrt_id WHERE oi.order_uid = $1"@,
        }
    }

    /// The statement's text.
    pub fn sql(self) -> (text: &'static str)
        ensures
            text@ == self.spec_sql(),
    {
        match self {
            StatementKind::InsertDelivery =>
                "INSERT INTO delivery (name, phone, zip, city, address, region, email) VALUES ($1, $2, $3, $4, $5, $6, $7) RETURNING delivery_id",
            StatementKind::InsertPayment =>
                "INSERT INTO payment (transaction, request_id, currency, provider, amount, payment_dt, bank, delivery_cost, goods_total, custom_fee) VALUES ($1, $2, $3, $4, $5, $6, $7, $8, $9, $10)",
            StatementKind::InsertOrder =>
                "INSERT INTO order_info (order_uid, track_number, entry, delivery_id, payment_transaction, locale, internal_signature, customer_id, delivery_service, shardkey, sm_id, date_created, oof_shard) VALUES ($1, $2, $3, $4, $5, $6, $7, $8, $9, $10, $11, $12, $13)",
            StatementKind::InsertItem =>
                "INSERT INTO item (chrt_id, track_number, price, rid, name, sale, size, total_price, nm_id, brand, status) VALUES ($1, $2, $3, $4, $5, $6, $7, $8, $9, $10, $11)",
            StatementKind::InsertOrderItem =>
                "INSERT INTO order_item (order_uid, item_chrt_id) VALUES ($1, $2)",
            StatementKind::SelectOrders =>
                "SELECT oi.order_uid, oi.track_number, oi.entry, oi.locale, oi.internal_signature, oi.customer_id, oi.delivery_service, oi.shardkey, oi.sm_id, oi.date_created, oi.oof_shard, d.delivery_id, d.name, d.phone, d.zip, d.city, d.address, d.region, d.email, p.transaction, p.request_id, p.currency, p.provider, p.amount, p.payment_dt, p.bank, p.delivery_cost, p.goods_total, p.custom_fee FROM order_info oi JOIN delivery d ON oi.delivery_id = d.delivery_id JOIN payment p ON oi.payment_transaction = p.transaction",
            StatementKind::SelectItems =>
                "SELECT i.chrt_id, i.track_number, i.price, i.rid, i.name, i.sale, i.size, i.total_price, i.nm_id, i.brand, i.status FROM item i JOIN order_item oi ON i.chrt_id = oi.item_chrt_id WHERE oi.order_uid = $1",
        }
    }

    /// What the statement gives back: the delivery insert returns the row that
    /// holds the new delivery's number, the two selects return rows, the other
    /// inserts return nothing.
    pub open spec fn spec_fetch(self) -> Fetch {
        match self {
            StatementKind::InsertDelivery => Fetch::OneRow,
            StatementKind::SelectOrders | StatementKind::SelectItems => Fetch::Rows,
            _ => Fetch::Nothing,
        }
    }

    /// What the statement gives back.
    pub fn fetch(self) -> (fetch: Fetch)
        ensures
            fetch == self.spec_fetch(),
    {
        match self {
            StatementKind::InsertDelivery => Fetch::OneRow,
            StatementKind::SelectOrders | StatementKind::SelectItems => Fetch::Rows,
            _ => Fetch::Nothing,
        }
    }
}

/// A statement with the values of its parameters, `params[0]` for `$1`.
#[derive(Debug, PartialEq, Eq)]
pub struct Statement {
    pub kind: StatementKind,
    pub params: Vec<SqlValue>,
}

pub struct StatementView {
    pub kind: StatementKind,
    pub params: Seq<SqlValueView>,
}

impl View for Statement {
    type V = StatementView;

    open spec fn view(&self) -> StatementView {
        StatementView { kind: self.kind, params: values_view(self.params@) }
    }
}

/// What kind of failure the storage reported.
#[derive(Clone, Copy, Debug, PartialEq, Eq, Structural)]
pub enum StorageErrorKind {
    /// The storage could not be reached, or the connection broke.
    Connection,
    /// A row would have broken a constraint, such as a key that exists already.
    Constraint,
    /// The storage refused or failed the statement for another reason.
    Statement,
}

impl StorageErrorKind {
    /// The kind of a failure, from what the storage's driver tells of it:
    /// whether the connection is gone, and the five-letter SQLSTATE code where
    /// the storage gave one. Codes of class `08` are connection failures, codes
    /// of class `23` are broken constraints.
    pub open spec fn spec_classify(connection_lost: bool, sqlstate: Option<Seq<char>>) -> StorageErrorKind {
        if connection_lost {
            StorageErrorKind::Connection
        } else {
            match sqlstate {
                Some(code) => if code.len() >= 2 && code[0] == '0' && code[1] == '8' {
                    StorageErrorKind::Connection
                } else if code.len() >= 2 && code[0] == '2' && code[1] == '3' {
                    StorageErrorKind::Constraint
                } else {
                    StorageErrorKind::Statement
                },
                None => StorageErrorKind::Statement,
            }
        }
    }

    /// The kind of a failure, from what the storage's driver tells of it.
    pub fn classify(connection_lost: bool, sqlstate: Option<&str>) -> (kind: StorageErrorKind)
        ensures
            kind == Self::spec_classify(
                connection_lost,
                match sqlstate {
                    Some(code) => Some(code@),
                    None => None,
                },
            ),
    {
        if connection_lost {
            return StorageErrorKind::Connection;
        }
        match sqlstate {
            Some(code) => {
                if code.unicode_len() < 2 {
                    return StorageErrorKind::Statement;
                }
                let class = code.get_char(0);
                let subclass = code.get_char(1);
                if class == '0' && subclass == '8' {
                    StorageErrorKind::Connection
                } else if class == '2' && subclass == '3' {
                    StorageErrorKind::Constraint
                } else {
                    StorageErrorKind::Statement
                }
            },
            None => StorageErrorKind::Statement,
        }
    }
}

/// A failure that the storage reported, in the storage's own words.
#[derive(Debug, PartialEq, Eq)]
pub struct StorageError {
    pub kind: StorageErrorKind,
    pub message: String,
}

pub struct StorageErrorView {
    pub kind: StorageErrorKind,
    pub message: Seq<char>,
}

impl View for StorageError {
    type V = StorageErrorView;

    open spec fn view(&self) -> StorageErrorView {
        StorageErrorView { kind: self.kind, message: self.message@ }
    }
}

impl Clone for StorageError {
    fn clone(&self) -> (copy: Self)
        ensures
            copy == *self,
    {
        StorageError { kind: self.kind, message: self.message.clone() }
    }
}

/// The storage's answer to one statement.
#[derive(Debug, PartialEq, Eq)]
pub enum Reply {
    /// The statement ran and gave these rows.
    Rows(Vec<Row>),
    /// The statement ran and gave no rows.
    Done,
    /// The statement did not run.
    Failed(StorageError),
}

pub enum ReplyView {
    Rows(Seq<Seq<ColumnView>>),
    Done,
    Failed(StorageErrorView),
}

impl View for Reply {
    type V = ReplyView;

    open spec fn view(&self) -> ReplyView {
        match self {
            Reply::Rows(rows) => ReplyView::Rows(rows_view(rows@)),
            Reply::Done => ReplyView::Done,
            Reply::Failed(e) => ReplyView::Failed(e@),
        }
    }
}

/// Why an operation of the repository did not succeed.
#[derive(Debug, PartialEq, Eq)]
pub enum Error {
    /// The storage reported a failure; it is handed on as it came.
    Storage(StorageError),
    /// The storage answered, but not with what the statement returns: a row is
    /// missing, or a column is absent or holds another type.
    Unreadable,
}

pub enum ErrorView {
    Storage(StorageErrorView),
    Unreadable,
}

impl View for Error {
    type V = ErrorView;

    open spec fn view(&self) -> ErrorView {
        match self {
            Error::Storage(e) => ErrorView::Storage(e@),
            Error::Unreadable => ErrorView::Unreadable,
        }
    }
}

impl Error {
    /// The text shown for the error: the storage's own message, or a fixed
    /// sentence for an answer that could not be read.
    pub open spec fn spec_message(e: ErrorView) -> Seq<char> {
        match e {
            ErrorView::Storage(s) => s.message,
            ErrorView::Unreadable => "the storage's answer could not be read"@,
        }
    }

    /// The text shown for the error.
    pub fn message(&self) -> (text: String)
        ensures
            text@ == Self::spec_message(self@),
    {
        match self {
            Error::Storage(s) => s.message.clone(),
            Error::Unreadable => String::from_str("the storage's answer could not be read"),
        }
    }
}

} // verus!
