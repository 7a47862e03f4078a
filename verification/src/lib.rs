pub mod admin;
pub mod builder;
pub mod cbtml;
pub mod check;
pub mod config;
pub mod content;
pub mod digest;
pub mod lua;
pub mod media;
pub mod paths;
pub mod plugin;
pub mod text;
pub mod version;
