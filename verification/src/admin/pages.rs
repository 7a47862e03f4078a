//! Pages in the admin area: forms and slugs.
use crate::cbtml::filters::{filter_slugify, slugify_spec};
use vstd::prelude::*;

verus! {

/// The page editor's form.
#[derive(Debug)]
pub struct PageForm {
    pub title: String,
    pub slug: Option<String>,
    pub content: String,
    pub status: Option<String>,
    pub template: Option<String>,
}

/// Paging and filter of the page list.
#[derive(Debug)]
pub struct ListQuery {
    pub page: Option<u32>,
    pub status: Option<String>,
}

/// The slug generated from a page's title when none is given.
pub fn generate_slug(title: &str) -> (r: String)
    ensures
        r@ == slugify_spec(title@),
{
    filter_slugify(title.to_owned())
}

} // verus!
