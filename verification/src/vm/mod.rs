//! Sandboxes: their life cycle, their files and their snapshots.

pub mod backend;
pub mod control;
pub mod error;
pub mod laws;
pub mod leases;
pub mod memory;
pub mod restart;
pub mod results;
pub mod runtime;
