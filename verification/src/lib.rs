//! Verified model of the txwatch on-chain registries: the alert registry,
//! which stores alert configurations indexed by owner and by watched
//! contract, and the watcher registry, which holds the admin set and the
//! authorized watcher nodes.

pub mod address;
pub mod alert_laws;
pub mod alert_types;
pub mod alert_error;
pub mod alert_model;
pub mod alert_registry;
pub mod alert_state;
pub mod bytes;
pub mod fixtures;
pub mod rules;
pub mod seq_util;
pub mod watcher_model;
pub mod watcher_laws;
pub mod watcher_registry;
pub mod watcher_types;
