//! The logic behind the plugin scripting API: the helpers handed to scripts
//! (S3 request signing, HTML stripping, date normalisation), the file path
//! sandbox and the registry of filter and action hooks.
pub mod hooks;
pub mod runtime;
pub mod sandbox;
