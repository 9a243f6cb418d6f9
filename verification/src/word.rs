//! Words: the records, what the handlers decide, and what those decisions
//! do to the table of words.

pub mod handlers;
pub mod models;
pub mod store;
