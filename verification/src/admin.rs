//! The admin area's own logic: forms, slugs, CSRF tokens, sessions and
//! page helpers.
pub mod auth;
pub mod layout;
pub mod listing;
pub mod csrf;
pub mod categories;
pub mod install;
pub mod media;
pub mod plugins;
pub mod plugin_page;
pub mod pages;
pub mod posts;
pub mod settings;
pub mod tags;
pub mod template;
pub mod theme;
