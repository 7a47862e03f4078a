//! Tags in the admin area.
use crate::cbtml::filters::{filter_slugify, slugify_spec};
use vstd::prelude::*;

verus! {

/// The tag form.
#[derive(Debug)]
pub struct TagForm {
    pub name: String,
    pub slug: Option<String>,
    pub description: Option<String>,
}

/// Paging of the tag list.
#[derive(Debug)]
pub struct ListQuery {
    pub page: Option<u32>,
}

/// The slug generated from a tag's name when none is given.
pub fn generate_slug(name: &str) -> (r: String)
    ensures
        r@ == slugify_spec(name@),
{
    filter_slugify(name.to_owned())
}

} // verus!
