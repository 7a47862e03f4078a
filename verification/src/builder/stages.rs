//! Build stages.
pub mod finalize;
pub mod generate;
pub mod load;
pub mod taxonomy;
pub mod postprocess;
pub mod render;
