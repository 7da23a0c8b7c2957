//! Codex rollout files: their records and how they are normalized.

pub mod types;
pub mod identity;
pub mod message;
pub mod dedup;
pub mod content;
pub mod session;
pub mod json;
pub mod metadata;
pub mod reader;
pub mod meta;
pub mod pretty;
pub mod display;
pub mod entry;
pub mod normalize;
pub mod item;
pub mod response;
pub mod envelope;
pub mod deduper;
pub mod driver;
pub mod decode;
pub mod fold;
