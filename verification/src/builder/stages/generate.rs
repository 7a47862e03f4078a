//! Pages to render: the index pages and their pagination, and the URLs and
//! titles of post, taxonomy and archive pages.
use crate::cbtml::filters::{filter_slugify, slugify_spec};
use crate::content::TaxonomyIndex;
use crate::text::{dec, i64_to_string, push_all, string_push_str, u64_to_string, usize_to_string};
use vstd::prelude::*;

verus! {

/// The number of index pages for `n` posts, `per_page` to a page: at least
/// one.
pub open spec fn index_page_count(n: nat, per_page: nat) -> nat
    recommends
        per_page > 0,
{
    if n == 0 {
        1
    } else {
        ((n + per_page - 1) / per_page as int) as nat
    }
}

/// The URL of index page `k` (counting from 1).
pub open spec fn index_url(k: nat) -> Seq<char> {
    if k == 1 {
        "/"@
    } else {
        "/page/"@ + dec(k) + "/"@
    }
}

/// One index page: its number, the posts it lists (`start..end`), its URL,
/// the URLs of its neighbours, and its own title (`None` for the first page,
/// which carries the site title).
#[derive(Debug)]
pub struct IndexPage {
    pub number: usize,
    pub start: usize,
    pub end: usize,
    pub url: String,
    pub prev: Option<String>,
    pub next: Option<String>,
    pub title: Option<String>,
}

/// Whether `p` is index page `k` of `total` for `n` posts.
pub open spec fn index_page_ok(p: IndexPage, k: nat, total: nat, n: nat, per_page: nat) -> bool {
    &&& p.number == k
    &&& p.start == (k - 1) * per_page
    &&& p.end == if k * per_page <= n {
        k * per_page
    } else {
        n
    }
    &&& p.url@ == index_url(k)
    &&& p.prev.is_some() == (k > 1)
    &&& (p.prev matches Some(u) ==> u@ == index_url((k - 1) as nat))
    &&& p.next.is_some() == (k < total)
    &&& (p.next matches Some(u) ==> u@ == index_url(k + 1))
    &&& p.title.is_some() == (k != 1)
    &&& (p.title matches Some(t) ==> t@ == "第 "@ + dec(k) + " 页"@)
}

/// The URL of index page `k`.
pub fn index_url_exec(k: usize) -> (r: String)
    ensures
        r@ == index_url(k as nat),
{
    if k == 1 {
        "/".to_owned()
    } else {
        let mut s = "/page/".to_owned();
        let d = usize_to_string(k);
        push_all(&mut s, &d);
        string_push_str(&mut s, "/");
        s
    }
}

/// The index pages for `n` posts, `per_page` to a page, in order.
pub fn paginate(n: usize, per_page: usize) -> (r: Vec<IndexPage>)
    requires
        per_page > 0,
    ensures
        r.len() == index_page_count(n as nat, per_page as nat),
        forall|i: int|
            0 <= i < r.len() ==> index_page_ok(
                #[trigger] r@[i],
                (i + 1) as nat,
                r.len() as nat,
                n as nat,
                per_page as nat,
            ),
{
    let total: usize = if n == 0 {
        1
    } else {
        (n - 1) / per_page + 1
    };
    assert(total == index_page_count(n as nat, per_page as nat)) by (nonlinear_arith)
        requires
            per_page > 0,
            n > 0 ==> total == (n - 1) / (per_page as int) + 1,
            n == 0 ==> total == 1,
    {
        if n > 0 {
            assert((n + per_page - 1) / per_page as int == (n - 1) / per_page as int + 1);
        }
    }
    let mut pages: Vec<IndexPage> = Vec::new();
    let mut j: usize = 0;
    while j < total
        invariant
            j <= total,
            total == index_page_count(n as nat, per_page as nat),
            n > 0 ==> total == (n - 1) / (per_page as int) + 1,
            n == 0 ==> total == 1,
            per_page > 0,
            pages.len() == j,
            forall|i: int|
                0 <= i < pages.len() ==> index_page_ok(
                    #[trigger] pages@[i],
                    (i + 1) as nat,
                    total as nat,
                    n as nat,
                    per_page as nat,
                ),
        decreases total - j,
    {
        let k = j + 1;
        assert((k - 1) * per_page <= n) by (nonlinear_arith)
            requires
                k <= total,
                per_page > 0,
                n > 0 ==> total == (n - 1) / (per_page as int) + 1,
                n == 0 ==> total == 1,
        {
            if n > 0 {
                assert(k - 1 <= (n - 1) / per_page as int);
            }
        }
        let start = j * per_page;
        let end = if per_page <= n - start {
            start + per_page
        } else {
            n
        };
        assert(k * per_page == start + per_page) by (nonlinear_arith)
            requires
                start == (k - 1) * per_page,
                k >= 1,
        ;
        let prev = if k > 1 {
            Some(index_url_exec(k - 1))
        } else {
            None
        };
        let next = if k < total {
            Some(index_url_exec(k + 1))
        } else {
            None
        };
        let title = if k == 1 {
            None
        } else {
            let mut t = "第 ".to_owned();
            let d = usize_to_string(k);
            push_all(&mut t, &d);
            string_push_str(&mut t, " 页");
            Some(t)
        };
        let page = IndexPage { number: k, start, end, url: index_url_exec(k), prev, next, title };
        assert(index_page_ok(page, k as nat, total as nat, n as nat, per_page as nat));
        pages.push(page);
        j += 1;
    }
    pages
}

/// The index pages list every post exactly once, in order: page `k` starts
/// where page `k - 1` ends, the first starts at the first post, the last
/// ends at the last, and no page holds more than `per_page` posts.
pub proof fn law_pagination_covers_posts(n: nat, per_page: nat, pages: Seq<IndexPage>)
    requires
        per_page > 0,
        pages.len() == index_page_count(n, per_page),
        forall|i: int|
            0 <= i < pages.len() ==> index_page_ok(
                #[trigger] pages[i],
                (i + 1) as nat,
                pages.len() as nat,
                n,
                per_page,
            ),
    ensures
        pages[0].start == 0,
        pages[pages.len() - 1].end == n,
        forall|i: int| 0 < i < pages.len() ==> (#[trigger] pages[i]).start == pages[i - 1].end,
        forall|i: int| 0 <= i < pages.len() ==> (#[trigger] pages[i]).end - pages[i].start <= per_page,
{
    assert(pages.len() >= 1) by (nonlinear_arith)
        requires
            per_page > 0,
            pages.len() == index_page_count(n, per_page),
    {
        if n > 0 {
            assert((n + per_page - 1) / per_page as int >= 1);
        }
    }
    assert(index_page_ok(pages[0], 1, pages.len() as nat, n, per_page));
    let last = pages.len() - 1;
    assert(index_page_ok(pages[last], pages.len() as nat, pages.len() as nat, n, per_page));
    assert(pages[last].end == n) by (nonlinear_arith)
        requires
            per_page > 0,
            pages.len() == index_page_count(n, per_page),
            pages[last].end == if pages.len() * per_page <= n {
                pages.len() * per_page
            } else {
                n
            },
            pages.len() >= 1,
    {
        if n > 0 {
            assert(pages.len() == (n + per_page - 1) / per_page as int);
            assert(pages.len() * per_page >= n);
        }
    }
    assert forall|i: int| 0 < i < pages.len() implies (#[trigger] pages[i]).start == pages[i
        - 1].end by {
        assert(index_page_ok(pages[i], (i + 1) as nat, pages.len() as nat, n, per_page));
        assert(index_page_ok(pages[i - 1], i as nat, pages.len() as nat, n, per_page));
        assert(i * per_page <= n) by (nonlinear_arith)
            requires
                per_page > 0,
                0 < i < pages.len(),
                pages.len() == index_page_count(n, per_page),
        {
            if n > 0 {
                assert(pages.len() == (n + per_page - 1) / per_page as int);
                assert((pages.len() - 1) * per_page < n);
            }
        }
    }
    assert forall|i: int| 0 <= i < pages.len() implies (#[trigger] pages[i]).end - pages[i].start
        <= per_page by {
        assert(index_page_ok(pages[i], (i + 1) as nat, pages.len() as nat, n, per_page));
        assert((i + 1) * per_page == i * per_page + per_page) by (nonlinear_arith);
    }
}

/// The URL of a post's page.
pub open spec fn post_url_spec(slug: Seq<char>) -> Seq<char> {
    "/posts/"@ + slug + "/"@
}

/// The URL of the post with slug `slug`.
pub fn post_url(slug: &str) -> (r: String)
    ensures
        r@ == post_url_spec(slug@),
{
    let mut s = "/posts/".to_owned();
    string_push_str(&mut s, slug);
    string_push_str(&mut s, "/");
    s
}

/// The URL and title of the page of tag `tag`.
pub fn tag_page(tag: &str) -> (r: (String, String))
    ensures
        r.0@ == "/tags/"@ + slugify_spec(tag@) + "/"@,
        r.1@ == "标签："@ + tag@,
{
    let slug = filter_slugify(tag.to_owned());
    let mut url = "/tags/".to_owned();
    push_all(&mut url, &slug);
    string_push_str(&mut url, "/");
    let mut title = "标签：".to_owned();
    string_push_str(&mut title, tag);
    (url, title)
}

/// The URL and title of the page of category `category`.
pub fn category_page(category: &str) -> (r: (String, String))
    ensures
        r.0@ == "/category/"@ + slugify_spec(category@) + "/"@,
        r.1@ == "分类："@ + category@,
{
    let slug = filter_slugify(category.to_owned());
    let mut url = "/category/".to_owned();
    push_all(&mut url, &slug);
    string_push_str(&mut url, "/");
    let mut title = "分类：".to_owned();
    string_push_str(&mut title, category);
    (url, title)
}

/// Decimal text of a signed year.
pub open spec fn year_text(y: int) -> Seq<char> {
    if y < 0 {
        "-"@ + dec((-y) as nat)
    } else {
        dec(y as nat)
    }
}

/// A month as two digits at least (`{:02}`).
pub open spec fn month2(m: nat) -> Seq<char> {
    if m < 10 {
        "0"@ + dec(m)
    } else {
        dec(m)
    }
}

/// The URL and title of the archive page of `month` of `year`.
pub fn archive_page(year: i32, month: u32) -> (r: (String, String))
    ensures
        r.0@ == "/archive/"@ + year_text(year as int) + "/"@ + month2(month as nat) + "/"@,
        r.1@ == year_text(year as int) + "年"@ + dec(month as nat) + "月"@,
{
    let y = i64_to_string(year as i64);
    let m = u64_to_string(month as u64);
    let mut url = "/archive/".to_owned();
    push_all(&mut url, &y);
    string_push_str(&mut url, "/");
    if month < 10 {
        string_push_str(&mut url, "0");
    }
    push_all(&mut url, &m);
    string_push_str(&mut url, "/");
    let mut title = y.clone();
    string_push_str(&mut title, "年");
    push_all(&mut title, &m);
    string_push_str(&mut title, "月");
    (url, title)
}

/// The positions of the neighbours of post `i` among `n` posts listed
/// newest first: the previous post is the next older one, the next post the
/// next newer one.
pub open spec fn neighbors_spec(i: nat, n: nat) -> (Option<nat>, Option<nat>) {
    (if i + 1 < n {
        Some(i + 1)
    } else {
        None
    }, if i > 0 {
        Some((i - 1) as nat)
    } else {
        None
    })
}

/// The previous and next posts of post `i` (see `neighbors_spec`).
pub fn post_neighbors(i: usize, n: usize) -> (r: (Option<usize>, Option<usize>))
    requires
        i < n,
    ensures
        (match r.0 {
            Some(p) => Some(p as nat),
            None => None,
        }, match r.1 {
            Some(q) => Some(q as nat),
            None => None,
        }) == neighbors_spec(i as nat, n as nat),
{
    let prev = if i + 1 < n {
        Some(i + 1)
    } else {
        None
    };
    let next = if i > 0 {
        Some(i - 1)
    } else {
        None
    };
    (prev, next)
}

/// Post pages link both ways: when post `j` is the previous post of post
/// `i`, post `i` is the next post of post `j`, and the reverse.
pub proof fn law_neighbors_link_both_ways(i: nat, j: nat, n: nat)
    requires
        i < n,
        j < n,
    ensures
        neighbors_spec(i, n).0 == Some(j) <==> neighbors_spec(j, n).1 == Some(i),
{
}

/// What a post contributes to the pages: its slug, its title and the
/// template it asks for, if any.
#[derive(Debug)]
pub struct PostSource {
    pub slug: String,
    pub title: String,
    pub template: Option<String>,
}

/// What a page is: the page of post `index` with the positions of its
/// previous and next posts; an index page; the page of tag, category or
/// month `index` of the taxonomy.
#[derive(Debug)]
pub enum PageKind {
    Post { index: usize, prev: Option<usize>, next: Option<usize> },
    Index(IndexPage),
    Tag(usize),
    Category(usize),
    Archive(usize),
}

/// A page to render: its URL, its template, its title and what it shows.
#[derive(Debug)]
pub struct PageSpec {
    pub url: String,
    pub template: String,
    pub title: String,
    pub kind: PageKind,
}

/// Whether `p` is the page of post `i` of `posts`.
pub open spec fn post_page_ok(p: PageSpec, posts: Seq<PostSource>, i: int) -> bool {
    &&& p.url@ == post_url_spec(posts[i].slug@)
    &&& p.template@ == match posts[i].template {
        Some(t) => t@,
        None => "post"@,
    }
    &&& p.title@ == posts[i].title@
    &&& p.kind matches PageKind::Post { index, prev, next } && index == i && (match prev {
        Some(q) => Some(q as nat),
        None => None,
    }, match next {
        Some(q) => Some(q as nat),
        None => None,
    }) == neighbors_spec(i as nat, posts.len())
}

/// Whether `p` is index page `k` (counting from 1) of `total`.
pub open spec fn index_entry_ok(
    p: PageSpec,
    k: nat,
    total: nat,
    n: nat,
    per_page: nat,
    site_title: Seq<char>,
) -> bool {
    &&& p.url@ == index_url(k)
    &&& p.template@ == "index"@
    &&& p.title@ == if k == 1 {
        site_title
    } else {
        "第 "@ + dec(k) + " 页"@
    }
    &&& p.kind matches PageKind::Index(ip) && index_page_ok(ip, k, total, n, per_page)
}

/// Whether `p` is the page of tag `j` of `t`.
pub open spec fn tag_entry_ok(p: PageSpec, t: TaxonomyIndex, j: int) -> bool {
    &&& p.url@ == "/tags/"@ + slugify_spec(t.tags@[j].0@) + "/"@
    &&& p.template@ == "tag"@
    &&& p.title@ == "标签："@ + t.tags@[j].0@
    &&& p.kind == PageKind::Tag(j as usize)
}

/// Whether `p` is the page of category `j` of `t`.
pub open spec fn category_entry_ok(p: PageSpec, t: TaxonomyIndex, j: int) -> bool {
    &&& p.url@ == "/category/"@ + slugify_spec(t.categories@[j].0@) + "/"@
    &&& p.template@ == "category"@
    &&& p.title@ == "分类："@ + t.categories@[j].0@
    &&& p.kind == PageKind::Category(j as usize)
}

/// Whether `p` is the page of month `j` of `t`.
pub open spec fn archive_entry_ok(p: PageSpec, t: TaxonomyIndex, j: int) -> bool {
    let (y, m) = t.archives@[j].0;
    &&& p.url@ == "/archive/"@ + year_text(y as int) + "/"@ + month2(m as nat) + "/"@
    &&& p.template@ == "archive"@
    &&& p.title@ == year_text(y as int) + "年"@ + dec(m as nat) + "月"@
    &&& p.kind == PageKind::Archive(j as usize)
}

/// Every page to render, in order: one per post, newest first as `posts`
/// are; the index pages, `per_page` posts to a page; one per tag, per
/// category and per month of `taxonomy`.
pub fn generate_pages(
    posts: &Vec<PostSource>,
    taxonomy: &TaxonomyIndex,
    per_page: usize,
    site_title: &str,
) -> (r: Vec<PageSpec>)
    requires
        per_page > 0,
    ensures
        r.len() == posts.len() + index_page_count(posts.len() as nat, per_page as nat)
            + taxonomy.tags.len() + taxonomy.categories.len() + taxonomy.archives.len(),
        forall|i: int| 0 <= i < posts.len() ==> post_page_ok(#[trigger] r@[i], posts@, i),
        forall|k: int|
            0 <= k < index_page_count(posts.len() as nat, per_page as nat) ==> index_entry_ok(
                #[trigger] r@[posts.len() + k],
                (k + 1) as nat,
                index_page_count(posts.len() as nat, per_page as nat),
                posts.len() as nat,
                per_page as nat,
                site_title@,
            ),
        forall|j: int|
            0 <= j < taxonomy.tags.len() ==> tag_entry_ok(
                #[trigger] r@[posts.len() + index_page_count(posts.len() as nat, per_page as nat) + j],
                *taxonomy,
                j,
            ),
        forall|j: int|
            0 <= j < taxonomy.categories.len() ==> category_entry_ok(
                #[trigger] r@[posts.len() + index_page_count(posts.len() as nat, per_page as nat)
                    + taxonomy.tags.len() + j],
                *taxonomy,
                j,
            ),
        forall|j: int|
            0 <= j < taxonomy.archives.len() ==> archive_entry_ok(
                #[trigger] r@[posts.len() + index_page_count(posts.len() as nat, per_page as nat)
                    + taxonomy.tags.len() + taxonomy.categories.len() + j],
                *taxonomy,
                j,
            ),
{
    let n = posts.len();
    let mut pages: Vec<PageSpec> = Vec::new();
    let mut i: usize = 0;
    while i < n
        invariant
            i <= n,
            n == posts.len(),
            pages.len() == i,
            forall|j: int| 0 <= j < i ==> post_page_ok(#[trigger] pages@[j], posts@, j),
        decreases n - i,
    {
        let p = &posts[i];
        let url = post_url(p.slug.as_str());
        let template = match &p.template {
            Some(t) => t.clone(),
            None => "post".to_owned(),
        };
        let (prev, next) = post_neighbors(i, n);
        let page = PageSpec { url, template, title: p.title.clone(), kind: PageKind::Post { index: i, prev, next } };
        assert(post_page_ok(page, posts@, i as int));
        pages.push(page);
        i += 1;
    }
    let ghost total = index_page_count(n as nat, per_page as nat);
    let mut idx = paginate(n, per_page);
    let ghost all_idx = idx@;
    let mut k: usize = 0;
    while idx.len() > 0
        invariant
            n == posts.len(),
            k + idx.len() == total,
            all_idx.len() == total,
            idx@ == all_idx.subrange(k as int, total as int),
            forall|q: int| 0 <= q < all_idx.len() ==> index_page_ok(
                #[trigger] all_idx[q],
                (q + 1) as nat,
                total as nat,
                n as nat,
                per_page as nat,
            ),
            pages.len() == n + k,
            forall|j: int| 0 <= j < n ==> post_page_ok(#[trigger] pages@[j], posts@, j),
            forall|q: int| 0 <= q < k ==> index_entry_ok(
                #[trigger] pages@[n + q],
                (q + 1) as nat,
                total,
                n as nat,
                per_page as nat,
                site_title@,
            ),
        decreases idx.len(),
    {
        let ip = idx.remove(0);
        assert(ip == all_idx[k as int]);
        let url = index_url_exec(ip.number);
        let title = match &ip.title {
            Some(t) => t.clone(),
            None => site_title.to_owned(),
        };
        let page = PageSpec { url, template: "index".to_owned(), title, kind: PageKind::Index(ip) };
        assert(index_entry_ok(page, (k + 1) as nat, total, n as nat, per_page as nat, site_title@));
        pages.push(page);
        k += 1;
        assert(idx@ =~= all_idx.subrange(k as int, total as int));
    }
    let ghost base = n + total;
    let mut j: usize = 0;
    while j < taxonomy.tags.len()
        invariant
            n == posts.len(),
            base == n + total,
            pages.len() == base + j,
            j <= taxonomy.tags.len(),
            forall|q: int| 0 <= q < n ==> post_page_ok(#[trigger] pages@[q], posts@, q),
            forall|q: int| 0 <= q < total ==> index_entry_ok(
                #[trigger] pages@[n + q],
                (q + 1) as nat,
                total,
                n as nat,
                per_page as nat,
                site_title@,
            ),
            forall|q: int| 0 <= q < j ==> tag_entry_ok(#[trigger] pages@[base + q], *taxonomy, q),
        decreases taxonomy.tags.len() - j,
    {
        let (url, title) = tag_page(taxonomy.tags[j].0.as_str());
        pages.push(PageSpec { url, template: "tag".to_owned(), title, kind: PageKind::Tag(j) });
        j += 1;
    }
    let ghost base2 = base + taxonomy.tags.len();
    let mut j: usize = 0;
    while j < taxonomy.categories.len()
        invariant
            n == posts.len(),
            base == n + total,
            base2 == base + taxonomy.tags.len(),
            pages.len() == base2 + j,
            j <= taxonomy.categories.len(),
            forall|q: int| 0 <= q < n ==> post_page_ok(#[trigger] pages@[q], posts@, q),
            forall|q: int| 0 <= q < total ==> index_entry_ok(
                #[trigger] pages@[n + q],
                (q + 1) as nat,
                total,
                n as nat,
                per_page as nat,
                site_title@,
            ),
            forall|q: int|
                0 <= q < taxonomy.tags.len() ==> tag_entry_ok(#[trigger] pages@[base + q], *taxonomy, q),
            forall|q: int| 0 <= q < j ==> category_entry_ok(#[trigger] pages@[base2 + q], *taxonomy, q),
        decreases taxonomy.categories.len() - j,
    {
        let (url, title) = category_page(taxonomy.categories[j].0.as_str());
        pages.push(PageSpec { url, template: "category".to_owned(), title, kind: PageKind::Category(j) });
        j += 1;
    }
    let ghost base3 = base2 + taxonomy.categories.len();
    let mut j: usize = 0;
    while j < taxonomy.archives.len()
        invariant
            n == posts.len(),
            base == n + total,
            base2 == base + taxonomy.tags.len(),
            base3 == base2 + taxonomy.categories.len(),
            pages.len() == base3 + j,
            j <= taxonomy.archives.len(),
            forall|q: int| 0 <= q < n ==> post_page_ok(#[trigger] pages@[q], posts@, q),
            forall|q: int| 0 <= q < total ==> index_entry_ok(
                #[trigger] pages@[n + q],
                (q + 1) as nat,
                total,
                n as nat,
                per_page as nat,
                site_title@,
            ),
            forall|q: int|
                0 <= q < taxonomy.tags.len() ==> tag_entry_ok(#[trigger] pages@[base + q], *taxonomy, q),
            forall|q: int|
                0 <= q < taxonomy.categories.len() ==> category_entry_ok(
                    #[trigger] pages@[base2 + q],
                    *taxonomy,
                    q,
                ),
            forall|q: int| 0 <= q < j ==> archive_entry_ok(#[trigger] pages@[base3 + q], *taxonomy, q),
        decreases taxonomy.archives.len() - j,
    {
        let (y, m) = taxonomy.archives[j].0;
        let (url, title) = archive_page(y, m);
        pages.push(PageSpec { url, template: "archive".to_owned(), title, kind: PageKind::Archive(j) });
        j += 1;
    }
    pages
}

} // verus!
