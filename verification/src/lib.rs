//! The identity and access core of a crowd-moderated dictionary: password
//! hashing, signed bearer tokens, the request guard that reads them, and the
//! rules by which words are submitted, approved and deleted.

use vstd::prelude::*;

pub mod primitives;
pub mod text;
pub mod password_manager;
pub mod response;
pub mod jwt;
pub mod guard;
pub mod user;
pub mod word;
