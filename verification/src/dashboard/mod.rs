//! The dashboard: what it knows of the cluster, and how it shows it.

pub mod args;
pub mod basic_auth;
pub mod control_plane_client;
pub mod html;
pub mod http;
pub mod page_laws;
pub mod poll_laws;
pub mod request_laws;
pub mod snapshot;
pub mod tls;
pub mod tls_laws;
