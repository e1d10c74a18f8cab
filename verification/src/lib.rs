//! A small credential registry: an append-only store of username/password
//! records kept in a line-oriented text format, with duplicate-safe
//! registration and read-only verification, together with the page state
//! machine of the shell that drives it.

pub mod page;
pub mod parse;
pub mod store;
