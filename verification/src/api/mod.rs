//! Request decoding and response shaping of the HTTP API.

pub mod query;
pub mod content;
pub mod entries;
pub mod sessions;
pub mod cursor;
pub mod page;
pub mod keyset;
pub mod sql;
