//! Categories in the admin area.
use crate::cbtml::filters::{filter_slugify, slugify_spec};
use vstd::prelude::*;

verus! {

/// A category as stored.
#[derive(Debug)]
pub struct Category {
    pub id: String,
    pub name: String,
    pub slug: String,
    pub description: String,
    pub parent_id: Option<String>,
    pub created_at: String,
}

/// The category form.
#[derive(Debug)]
pub struct CategoryForm {
    pub name: String,
    pub slug: Option<String>,
    pub description: Option<String>,
    pub parent_id: Option<String>,
}

/// Paging of the category list.
#[derive(Debug)]
pub struct ListQuery {
    pub page: Option<u32>,
}

/// The slug generated from a category's name when none is given.
pub fn generate_slug(name: &str) -> (r: String)
    ensures
        r@ == slugify_spec(name@),
{
    filter_slugify(name.to_owned())
}

} // verus!
