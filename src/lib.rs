//! Reminder scheduling: the parser that turns a `!remindme` command into a
//! point in time, and the store and decisions that carry a reminder from its
//! creation to its delivery and removal.

pub mod timestamp;
pub mod date_expr;
pub mod command;
pub mod store;
pub mod engine;
