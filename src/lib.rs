//! Finds container images in a registry that no live workload references,
//! and plans their deletion.

pub mod config;
pub mod dyson;
pub mod filter;
pub mod image;
pub mod join;
pub mod notifier;
pub mod pattern;
pub mod provider;
