//! ZFS datasets: the commands that work on them, and a stand-in that keeps them in memory.

pub mod cli;
pub mod error;
pub mod fake;
pub mod laws;
pub mod names;
