//! Order repository and order service, written without I/O.
//!
//! The library maps one order, with its delivery, its payment and its items,
//! to and from five relational tables. It never talks to the storage itself:
//! it says which statement to send next and takes the storage's reply, so the
//! caller owns the connection and every step of the library is a plain
//! function from values to values.
//!
//! - `model`: the order and what belongs to it.
//! - `sql`: values, rows, statements, replies and errors.
//! - `save`: the statements that store an order, and their sequence.
//! - `load`: the statements that read orders back, and how rows become orders.
//! - `service`: the list of accepted orders and the answers to requests.
//! - `storage`: what is taken for granted of the storage, and the laws that
//!   follow for saving and reading.

pub mod model;
pub mod sql;
pub mod save;
pub mod load;
pub mod service;
pub mod storage;
