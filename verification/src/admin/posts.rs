//! Posts in the admin area: forms and slugs.
use crate::cbtml::filters::{filter_slugify, slugify_spec};
use vstd::prelude::*;

verus! {

/// The post editor's form.
#[derive(Debug)]
pub struct PostForm {
    pub title: String,
    pub slug: Option<String>,
    pub content: String,
    pub status: Option<String>,
    pub tags: Option<String>,
    pub category: Option<String>,
    pub cover_image: Option<String>,
    pub excerpt: Option<String>,
}

/// Paging and filters of the post list.
#[derive(Debug)]
pub struct ListQuery {
    pub page: Option<u32>,
    pub status: Option<String>,
    pub search: Option<String>,
}

/// An autosaved draft.
#[derive(Debug)]
pub struct AutosaveBody {
    pub title: String,
    pub content: String,
    pub slug: Option<String>,
    pub tags: Option<String>,
    pub category: Option<String>,
    pub cover_image: Option<String>,
    pub excerpt: Option<String>,
}

/// The slug generated from a post's title when none is given.
pub fn generate_slug(title: &str) -> (r: String)
    ensures
        r@ == slugify_spec(title@),
{
    filter_slugify(title.to_owned())
}

} // verus!
