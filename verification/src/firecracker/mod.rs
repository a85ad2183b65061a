//! Sandboxes that are Firecracker microVMs.
//!
//! The functions here say what is done on the host, in which order and under which
//! names; the caller does it.

pub mod api;
pub mod host_laws;
pub mod laws;
pub mod machine;
pub mod paths;
pub mod plan;
pub mod steps;
