//! Index bookkeeping: the bootstrap window, work priorities and discovery.

pub mod policy;
pub mod sources;
pub mod work;
pub mod report;
pub mod discovery;
pub mod control;
pub mod reconcile;
pub mod coordinator;
pub mod changes;
pub mod full_discovery;
pub mod policy_store;
