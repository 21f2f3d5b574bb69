//! An in-process key-value store: an in-memory mapping from string keys to
//! string values with insert-or-overwrite, lookup and removal, together with
//! a command dispatcher that turns parsed commands into store operations.

pub mod dispatch;
pub mod store;
