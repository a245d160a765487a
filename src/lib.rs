//! Cluster awareness for a database driver: classification of heartbeat
//! replies, the topology update rules, server selection and the monitor
//! state machine.

pub mod error;
pub mod server;
pub mod topology;
pub mod laws;
pub mod selection;
pub mod monitor;
