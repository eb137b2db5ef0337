//! The control plane: which node runs what, and what to do when that changes.

pub mod addresses;
pub mod answer_laws;
pub mod backup;
pub mod cordoned;
pub mod decision_laws;
pub mod job_laws;
pub mod laws;
pub mod pending_fences;
pub mod placements;
pub mod reconcile;
pub mod reconcile_laws;
pub mod registry;
pub mod repeat_laws;
pub mod scheduler;
pub mod services;
pub mod standbys;
pub mod worker;
