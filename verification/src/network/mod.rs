//! Connection-level services.

pub mod monitor;
