//! The certificates of ingresses: who issues them, and how it is shown that a domain is ours.

pub mod account;
pub mod acme;
pub mod dns;
pub mod laws;
pub mod order;
