//! Content model: posts, Markdown bodies, excerpts and front matter.
pub mod excerpt;
pub mod frontmatter;
pub mod markdown;

use crate::content::markdown::{md_html_of, render_markdown};
use vstd::prelude::*;

verus! {

/// The publication state of a post or page.
#[derive(Debug, Clone, PartialEq, Eq)]
pub enum PostStatus {
    Draft,
    Published,
    Archived,
}

/// A Markdown body with its HTML rendered once, on first request, or set
/// from outside before that.
#[derive(Debug)]
pub struct MarkdownContent {
    pub raw: String,
    html: Option<String>,
}

impl MarkdownContent {
    /// The HTML fixed so far, if any.
    pub closed spec fn cached(&self) -> Option<Seq<char>> {
        match self.html {
            Some(h) => Some(h@),
            None => None,
        }
    }

    /// The Markdown source.
    pub closed spec fn source(&self) -> Seq<char> {
        self.raw@
    }

    /// The HTML that `html` gives for this body: the fixed HTML, or else the
    /// rendered Markdown.
    pub open spec fn html_spec(&self) -> Seq<char> {
        match self.cached() {
            Some(h) => h,
            None => md_html_of(self.source()),
        }
    }

    /// A body with no HTML fixed yet.
    pub fn new(raw: String) -> (r: Self)
        ensures
            r.source() == raw@,
            r.cached() == None::<Seq<char>>,
    {
        MarkdownContent { raw, html: None }
    }

    /// The HTML of the body: the HTML fixed earlier, or else the rendered
    /// Markdown, which is fixed from then on.
    pub fn html(&mut self) -> (r: String)
        ensures
            r@ == old(self).html_spec(),
            final(self).source() == old(self).source(),
            final(self).cached() == Some(r@),
    {
        match &self.html {
            Some(h) => h.clone(),
            None => {
                let h = render_markdown(self.raw.as_str());
                self.html = Some(h.clone());
                h
            },
        }
    }

    /// Fixes the HTML to `html` unless it is fixed already.
    pub fn set_html(&mut self, html: String)
        ensures
            final(self).source() == old(self).source(),
            final(self).cached() == match old(self).cached() {
                Some(h) => Some(h),
                None => Some(html@),
            },
    {
        if self.html.is_none() {
            self.html = Some(html);
        }
    }
}

/// The HTML of a body is fixed once: after `html` (whose result is then
/// cached) or `set_html` on a body with nothing fixed, every later `html`
/// gives the same text, and `set_html` changes nothing any more.
pub proof fn law_html_fixed_once(before: MarkdownContent, after: MarkdownContent, set: Seq<char>)
    ensures
        (after.source() == before.source() && after.cached() == Some(before.html_spec()))
            ==> after.html_spec() == before.html_spec(),
        (before.cached() is None && after.cached() == Some(set)) ==> after.html_spec() == set,
        (before.cached() is Some && after.cached() == before.cached()) ==> after.html_spec()
            == before.html_spec(),
{
}

/// A short reference to a post, as templates see it.
#[derive(Debug, Clone)]
pub struct PostRef {
    pub id: String,
    pub slug: String,
    pub title: String,
    pub url: String,
    pub excerpt: Option<String>,
    pub cover_image: Option<String>,
    pub created_at: String,
    pub tags: Vec<String>,
    pub category: Option<String>,
    pub reading_time: u32,
}

/// Posts grouped by tag, by category and by (year, month).  Tags and
/// categories are listed once each, in the order they first occur; months
/// in ascending order, as an ordered map walks them.
#[derive(Debug)]
pub struct TaxonomyIndex {
    pub tags: Vec<(String, Vec<PostRef>)>,
    pub categories: Vec<(String, Vec<PostRef>)>,
    pub archives: Vec<((i32, u32), Vec<PostRef>)>,
}

} // verus!
