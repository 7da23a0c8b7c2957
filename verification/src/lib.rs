//! Verified core of the local Codex session viewer.

use vstd::prelude::*;

pub mod config;
pub mod text;
pub mod time;
pub mod model;
pub mod failure;
pub mod error;
pub mod permissions;
pub mod paths;
pub mod server;
pub mod events;
pub mod api;
pub mod search;
pub mod index;
pub mod rollout;

verus! {

} // verus!
