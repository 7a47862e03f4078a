//! Plugins: their manifests, version checks and load order.
pub mod registry;
pub mod scheduler;
pub mod store;
