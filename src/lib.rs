//! Reachability monitoring core: topology expansion, probe policies,
//! bounded admission, state reconciliation and change notifications.

pub mod config;
pub mod text;
pub mod topology;
pub mod models;
pub mod state;
pub mod probe;
pub mod order;
pub mod schedule;
pub mod notify;
