//! Media uploads: size limits, accepted types, storage paths.
pub mod process;
pub mod upload;
