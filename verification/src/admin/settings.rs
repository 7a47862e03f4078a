//! Site settings kept in the database.
use vstd::prelude::*;

verus! {

/// The site settings.
#[derive(Debug, Clone, Default)]
pub struct SiteSettings {
    pub site_title: String,
    pub site_subtitle: String,
    pub site_url: String,
    pub admin_email: String,
}

/// The settings form.
#[derive(Debug)]
pub struct SaveSettingsForm {
    pub site_title: String,
    pub site_subtitle: String,
    pub site_url: String,
    pub admin_email: String,
}

} // verus!
