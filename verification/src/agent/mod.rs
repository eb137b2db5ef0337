//! The agent of a node: replication of volumes, and backups.

pub mod backup;
pub mod capacity;
pub mod replica_target;
pub mod replication;
pub mod run_laws;
pub mod volumes;
