//! keel: jails on a cluster of nodes.
//!
//! A control plane decides which node runs which jail, an agent on every node keeps them and replicates
//! their volumes, a dashboard shows how all of that stands, and an ingress gets the certificates. This
//! library is what they decide and compute; files, sockets and processes are left to its callers.

pub mod agent;
pub mod backoff;
pub mod calendar;
pub mod controlplane;
pub mod dashboard;
pub mod decimal;
pub mod fs_copy;
pub mod ingress;
pub mod jail;
pub mod message_laws;
pub mod resources;
pub mod strmap;
pub mod text;
pub mod text_laws;
pub mod views;
pub mod wire;
pub mod zfs;
