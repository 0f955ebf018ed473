//! Utility modules: hardware-offload calculators, timing helpers, and
//! configuration formats.

pub mod config;
pub mod offload;
pub mod time;
