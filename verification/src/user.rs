//! Users: the records, and what signup and login decide.

pub mod handlers;
pub mod models;
