//! The paging and status badges of the admin lists (posts, pages, media,
//! categories, tags).
use vstd::prelude::*;

verus! {

/// The page asked for, counting from 1; no page, or page 0, is the first.
pub fn requested_page(page: Option<u32>) -> (r: u32)
    ensures
        r == match page {
            Some(p) => if p > 1 {
                p
            } else {
                1
            },
            None => 1,
        },
        r >= 1,
{
    match page {
        Some(p) => if p > 1 {
            p
        } else {
            1
        },
        None => 1,
    }
}

/// How many rows come before `page` when each page holds `per_page` rows.
pub fn page_offset(page: u32, per_page: i32) -> (r: i32)
    requires
        page >= 1,
        per_page > 0,
        (page - 1) * per_page <= i32::MAX,
    ensures
        r == (page - 1) * per_page,
{
    assert(0 <= page - 1 <= (page - 1) * per_page) by (nonlinear_arith)
        requires
            page >= 1,
            per_page > 0,
    ;
    let before = (page - 1) as i32;
    before * per_page
}

/// Whether a page that came back with `rows` rows may have a successor: it
/// was full.
pub fn has_next_page(rows: usize, per_page: usize) -> (r: bool)
    ensures
        r == (rows == per_page),
{
    rows == per_page
}

/// The number of pages the list shows: one more than the current page when
/// it was full.
pub fn shown_total_pages(page: u32, has_next: bool) -> (r: u64)
    ensures
        r == if has_next {
            page + 1
        } else {
            page as int
        },
{
    if has_next {
        page as u64 + 1
    } else {
        page as u64
    }
}

/// The badge class and label of a post's status: published and draft have
/// their own, any other status is shown as it is on a neutral badge.
pub open spec fn post_badge(status: Seq<char>) -> (Seq<char>, Seq<char>) {
    if status == "published"@ {
        ("badge-success"@, "已发布"@)
    } else if status == "draft"@ {
        ("badge-warning"@, "草稿"@)
    } else {
        ("badge-neutral"@, status)
    }
}

/// The badge class and label of a post's status (see `post_badge`).
pub fn post_status_badge(status: &str) -> (r: (String, String))
    ensures
        (r.0@, r.1@) == post_badge(status@),
{
    if crate::builder::keyed::str_eq(status, "published") {
        ("badge-success".to_owned(), "已发布".to_owned())
    } else if crate::builder::keyed::str_eq(status, "draft") {
        ("badge-warning".to_owned(), "草稿".to_owned())
    } else {
        ("badge-neutral".to_owned(), status.to_owned())
    }
}

/// The badge class and label of a page's status: published, or else a
/// draft.
pub fn page_status_badge(status: &str) -> (r: (String, String))
    ensures
        (r.0@, r.1@) == if status@ == "published"@ {
            ("badge-success"@, "已发布"@)
        } else {
            ("badge-warning"@, "草稿"@)
        },
{
    if crate::builder::keyed::str_eq(status, "published") {
        ("badge-success".to_owned(), "已发布".to_owned())
    } else {
        ("badge-warning".to_owned(), "草稿".to_owned())
    }
}

} // verus!
