//! The site build: dependency graph, incremental-build cache and events.
pub mod events;
pub mod graph;
pub mod incremental;
pub mod keyed;
pub mod pipeline;
pub mod stages;
