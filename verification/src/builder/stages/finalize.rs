//! The last build stage: the sitemap and the RSS and Atom feeds.
use crate::content::frontmatter::UtcInstant;
use crate::text::{
    chars_of, flat_map_chars, opt_view, pairs_view, push_all, string_push, string_push_str,
};
use vstd::prelude::*;

verus! {

/// The XML escape of one character.
pub open spec fn xml_escape_char(c: char) -> Seq<char> {
    if c == '&' {
        "&amp;"@
    } else if c == '<' {
        "&lt;"@
    } else if c == '>' {
        "&gt;"@
    } else if c == '"' {
        "&quot;"@
    } else if c == '\'' {
        "&apos;"@
    } else {
        seq![c]
    }
}

/// `s` with `&`, `<`, `>`, `"` and `'` escaped for XML.
pub open spec fn xml_escape_spec(s: Seq<char>) -> Seq<char> {
    flat_map_chars(s, |c: char| xml_escape_char(c))
}

/// Escapes `&`, `<`, `>`, `"` and `'` for XML.
pub fn xml_escape(s: &str) -> (r: String)
    ensures
        r@ == xml_escape_spec(s@),
{
    let v = chars_of(s);
    let mut out = String::new();
    let mut i: usize = 0;
    while i < v.len()
        invariant
            i <= v.len(),
            v@ == s@,
            out@ == xml_escape_spec(v@.take(i as int)),
        decreases v.len() - i,
    {
        let c = v[i];
        if c == '&' {
            string_push_str(&mut out, "&amp;");
        } else if c == '<' {
            string_push_str(&mut out, "&lt;");
        } else if c == '>' {
            string_push_str(&mut out, "&gt;");
        } else if c == '"' {
            string_push_str(&mut out, "&quot;");
        } else if c == '\'' {
            string_push_str(&mut out, "&apos;");
        } else {
            string_push(&mut out, c);
            assert(out@ == xml_escape_spec(v@.take(i as int)) + seq![c]);
        }
        assert(v@.take(i + 1).drop_last() == v@.take(i as int));
        i += 1;
    }
    assert(v@.take(v.len() as int) == v@);
    out
}

// ───────────────────────── dates ─────────────────────────

/// The text of the instant `t` formatted by `chrono`'s `format(format)` on
/// `DateTime::<Utc>::from_timestamp(t.0, t.1)`; `None` where `chrono` holds
/// no such instant.
pub uninterp spec fn instant_text_of(t: UtcInstant, format: Seq<char>) -> Option<Seq<char>>;

/// `to_rfc3339` of `DateTime::<Utc>::from_timestamp(t.0, t.1)`; `None`
/// where `chrono` holds no such instant.
pub uninterp spec fn instant_rfc3339_of(t: UtcInstant) -> Option<Seq<char>>;

/// The formats the feeds write dates in: the sitemap's day and RSS's
/// RFC 822 time.  Neither holds a specifier that `format` could fail on.
pub open spec fn is_feed_date_format(f: Seq<char>) -> bool {
    f == "%Y-%m-%d"@ || f == "%a, %d %b %Y %H:%M:%S %z"@
}

/// `chrono::DateTime::<Utc>::from_timestamp`, then `format(format)`.  The
/// text is named, not written out.
#[verifier::external_body]
fn instant_text(t: UtcInstant, format: &str) -> (r: Option<String>)
    requires
        is_feed_date_format(format@),
    ensures
        opt_view(r) == instant_text_of(t, format@),
{
    match chrono::DateTime::<chrono::Utc>::from_timestamp(t.0, t.1) {
        Some(dt) => Some(dt.format(format).to_string()),
        None => None,
    }
}

/// `chrono::DateTime::<Utc>::from_timestamp`, then `to_rfc3339`.  The text
/// is named, not written out.
#[verifier::external_body]
fn instant_rfc3339(t: UtcInstant) -> (r: Option<String>)
    ensures
        opt_view(r) == instant_rfc3339_of(t),
{
    match chrono::DateTime::<chrono::Utc>::from_timestamp(t.0, t.1) {
        Some(dt) => Some(dt.to_rfc3339()),
        None => None,
    }
}

// ───────────────────────── documents ─────────────────────────

/// What the sitemap and the feeds read of a post.
pub struct FeedPost {
    pub slug: String,
    pub title: String,
    pub excerpt: Option<String>,
    pub created_at: UtcInstant,
    pub updated_at: UtcInstant,
}

/// The XML declaration that starts each document.
pub open spec fn xml_head() -> Seq<char> {
    "<?xml version=\"1.0\" encoding=\"UTF-8\"?>\n"@
}

/// A post's URL under the site URL.
pub open spec fn post_link(url: Seq<char>, slug: Seq<char>) -> Seq<char> {
    url + "/posts/"@ + slug + "/"@
}

/// The sitemap entry of one post, `None` where its update time cannot be
/// written.
pub open spec fn sitemap_entry(url: Seq<char>, freq: Seq<char>, priority: Seq<char>, p: FeedPost) -> Option<
    Seq<char>,
> {
    match instant_text_of(p.updated_at, "%Y-%m-%d"@) {
        Some(day) => Some(
            "  <url>\n    <loc>"@ + post_link(url, p.slug@) + "</loc>\n    <lastmod>"@ + day
                + "</lastmod>\n    <changefreq>"@ + freq + "</changefreq>\n    <priority>"@ + priority
                + "</priority>\n  </url>\n"@,
        ),
        None => None,
    }
}

/// The sitemap entry of each post.
pub open spec fn sitemap_piece(url: Seq<char>, freq: Seq<char>, priority: Seq<char>) -> spec_fn(FeedPost) -> Option<Seq<char>> {
    |p: FeedPost| sitemap_entry(url, freq, priority, p)
}

/// The RSS item of each post.
pub open spec fn rss_piece(url: Seq<char>) -> spec_fn(FeedPost) -> Option<Seq<char>> {
    |p: FeedPost| rss_item(url, p)
}

/// The Atom entry of each post.
pub open spec fn atom_piece(url: Seq<char>) -> spec_fn(FeedPost) -> Option<Seq<char>> {
    |p: FeedPost| atom_entry(url, p)
}

/// The concatenation of the pieces `f` gives for each post, `None` where one
/// of them is `None`.
pub open spec fn concat_all(posts: Seq<FeedPost>, f: spec_fn(FeedPost) -> Option<Seq<char>>) -> Option<
    Seq<char>,
>
    decreases posts.len(),
{
    if posts.len() == 0 {
        Some(Seq::empty())
    } else {
        match (concat_all(posts.drop_last(), f), f(posts.last())) {
            (Some(a), Some(b)) => Some(a + b),
            _ => None,
        }
    }
}

/// The sitemap: the home page, then each post with its last update, change
/// frequency and priority (`priority` is the configured number as text).
pub open spec fn sitemap_spec(url: Seq<char>, freq: Seq<char>, priority: Seq<char>, posts: Seq<FeedPost>) -> Option<
    Seq<char>,
> {
    match concat_all(posts, sitemap_piece(url, freq, priority)) {
        Some(body) => Some(
            xml_head() + "<urlset xmlns=\"http://www.sitemaps.org/schemas/sitemap/0.9\">\n"@
                + "  <url>\n    <loc>"@ + url + "/</loc>\n    <changefreq>"@ + freq
                + "</changefreq>\n    <priority>1.0</priority>\n  </url>\n"@ + body + "</urlset>\n"@,
        ),
        None => None,
    }
}

/// The RSS item of one post, `None` where its creation time cannot be
/// written.
pub open spec fn rss_item(url: Seq<char>, p: FeedPost) -> Option<Seq<char>> {
    match instant_text_of(p.created_at, "%a, %d %b %Y %H:%M:%S %z"@) {
        Some(date) => Some(
            "    <item>\n      <title>"@ + xml_escape_spec(p.title@) + "</title>\n      <link>"@
                + post_link(url, p.slug@) + "</link>\n      <guid isPermaLink=\"true\">"@
                + post_link(url, p.slug@) + "</guid>\n      <pubDate>"@ + date + "</pubDate>\n"@
                + match p.excerpt {
                Some(e) => "      <description>"@ + xml_escape_spec(e@) + "</description>\n"@,
                None => Seq::empty(),
            } + "    </item>\n"@,
        ),
        None => None,
    }
}

/// The RSS 2.0 feed of `posts`.
pub open spec fn rss_spec(title: Seq<char>, url: Seq<char>, description: Seq<char>, posts: Seq<FeedPost>) -> Option<
    Seq<char>,
> {
    match concat_all(posts, rss_piece(url)) {
        Some(items) => Some(
            xml_head() + "<rss version=\"2.0\" xmlns:atom=\"http://www.w3.org/2005/Atom\">\n"@
                + "  <channel>\n"@ + "    <title>"@ + xml_escape_spec(title) + "</title>\n"@
                + "    <link>"@ + url + "</link>\n"@ + "    <description>"@ + xml_escape_spec(
                description,
            ) + "</description>\n"@ + "    <atom:link href=\""@ + url
                + "/feed.xml\" rel=\"self\" type=\"application/rss+xml\" />\n"@ + items
                + "  </channel>\n</rss>\n"@,
        ),
        None => None,
    }
}

/// The Atom entry of one post, `None` where its update time cannot be
/// written.
pub open spec fn atom_entry(url: Seq<char>, p: FeedPost) -> Option<Seq<char>> {
    match instant_rfc3339_of(p.updated_at) {
        Some(updated) => Some(
            "  <entry>\n    <title>"@ + xml_escape_spec(p.title@) + "</title>\n    <link href=\""@
                + post_link(url, p.slug@) + "\" />\n    <id>"@ + post_link(url, p.slug@)
                + "</id>\n    <updated>"@ + updated + "</updated>\n"@ + match p.excerpt {
                Some(e) => "    <summary>"@ + xml_escape_spec(e@) + "</summary>\n"@,
                None => Seq::empty(),
            } + "  </entry>\n"@,
        ),
        None => None,
    }
}

/// The feed's `<updated>` line: the first post's update time, none for no
/// posts.
pub open spec fn atom_updated(posts: Seq<FeedPost>) -> Option<Seq<char>> {
    if posts.len() == 0 {
        Some(Seq::empty())
    } else {
        match instant_rfc3339_of(posts[0].updated_at) {
            Some(u) => Some("  <updated>"@ + u + "</updated>\n"@),
            None => None,
        }
    }
}

/// The Atom feed of `posts`.
pub open spec fn atom_spec(title: Seq<char>, url: Seq<char>, posts: Seq<FeedPost>) -> Option<Seq<char>> {
    match (atom_updated(posts), concat_all(posts, atom_piece(url))) {
        (Some(updated), Some(entries)) => Some(
            xml_head() + "<feed xmlns=\"http://www.w3.org/2005/Atom\">\n"@ + "  <title>"@
                + xml_escape_spec(title) + "</title>\n"@ + "  <link href=\""@ + url + "\" />\n"@
                + "  <link href=\""@ + url + "/atom.xml\" rel=\"self\" />\n"@ + "  <id>"@ + url
                + "/</id>\n"@ + updated + entries + "</feed>\n"@,
        ),
        _ => None,
    }
}

proof fn lemma_concat_none(s: Seq<FeedPost>, f: spec_fn(FeedPost) -> Option<Seq<char>>, i: int, j: int)
    requires
        0 <= i <= j <= s.len(),
        concat_all(s.take(i), f) is None,
    ensures
        concat_all(s.take(j), f) is None,
    decreases j - i,
{
    if j > i {
        lemma_concat_none(s, f, i, j - 1);
        assert(s.take(j).drop_last() =~= s.take(j - 1));
    }
}

proof fn lemma_concat_step(s: Seq<FeedPost>, f: spec_fn(FeedPost) -> Option<Seq<char>>, i: int)
    requires
        0 <= i < s.len(),
    ensures
        concat_all(s.take(i + 1), f) == (match (concat_all(s.take(i), f), f(s[i])) {
            (Some(a), Some(b)) => Some(a + b),
            _ => None,
        }),
{
    assert(s.take(i + 1).drop_last() =~= s.take(i));
    assert(s.take(i + 1).last() == s[i]);
}

/// An optional excerpt between `open` and `close`, escaped; nothing when
/// there is none.
pub open spec fn optional_line(e: Option<String>, open: Seq<char>, close: Seq<char>) -> Seq<char> {
    match e {
        Some(e) => open + xml_escape_spec(e@) + close,
        None => Seq::empty(),
    }
}

fn push_optional_line(out: &mut String, e: &Option<String>, open: &str, close: &str)
    ensures
        final(out)@ == old(out)@ + optional_line(*e, open@, close@),
{
    match e {
        Some(x) => {
            string_push_str(out, open);
            let esc = xml_escape(x.as_str());
            push_all(out, &esc);
            string_push_str(out, close);
        },
        None => {
            assert(old(out)@ + Seq::<char>::empty() =~= old(out)@);
        },
    }
}

fn push_post_link(out: &mut String, url: &str, slug: &String)
    ensures
        final(out)@ == old(out)@ + post_link(url@, slug@),
{
    string_push_str(out, url);
    string_push_str(out, "/posts/");
    push_all(out, slug);
    string_push_str(out, "/");
}

/// The sitemap entry of `p`.
fn sitemap_entry_text(url: &str, freq: &str, priority: &str, p: &FeedPost) -> (r: Option<String>)
    ensures
        opt_view(r) == sitemap_entry(url@, freq@, priority@, *p),
{
    let day = match instant_text(p.updated_at, "%Y-%m-%d") {
        Some(d) => d,
        None => return None,
    };
    let mut out = "  <url>\n    <loc>".to_owned();
    push_post_link(&mut out, url, &p.slug);
    string_push_str(&mut out, "</loc>\n    <lastmod>");
    push_all(&mut out, &day);
    string_push_str(&mut out, "</lastmod>\n    <changefreq>");
    string_push_str(&mut out, freq);
    string_push_str(&mut out, "</changefreq>\n    <priority>");
    string_push_str(&mut out, priority);
    string_push_str(&mut out, "</priority>\n  </url>\n");
    assert(out@ =~= sitemap_entry(url@, freq@, priority@, *p)->Some_0);
    Some(out)
}

/// The sitemap of the site at `url` (see `sitemap_spec`); `None` where a
/// post's update time cannot be written.
pub fn generate_sitemap(url: &str, change_freq: &str, priority: &str, posts: &[FeedPost]) -> (r: Option<
    String,
>)
    ensures
        opt_view(r) == sitemap_spec(url@, change_freq@, priority@, posts@),
{
    let ghost f = sitemap_piece(url@, change_freq@, priority@);
    let mut body = String::new();
    let mut i: usize = 0;
    assert(posts@.take(0) =~= Seq::<FeedPost>::empty());
    while i < posts.len()
        invariant
            i <= posts.len(),
            f == sitemap_piece(url@, change_freq@, priority@),
            concat_all(posts@.take(i as int), f) == Some(body@),
        decreases posts.len() - i,
    {
        proof {
            lemma_concat_step(posts@, f, i as int);
        }
        match sitemap_entry_text(url, change_freq, priority, &posts[i]) {
            Some(e) => push_all(&mut body, &e),
            None => {
                proof {
                    lemma_concat_none(posts@, f, i + 1, posts@.len() as int);
                    assert(posts@.take(posts@.len() as int) =~= posts@);
                }
                return None;
            },
        }
        i += 1;
    }
    assert(posts@.take(posts@.len() as int) =~= posts@);
    let mut xml = "<?xml version=\"1.0\" encoding=\"UTF-8\"?>\n".to_owned();
    string_push_str(&mut xml, "<urlset xmlns=\"http://www.sitemaps.org/schemas/sitemap/0.9\">\n");
    string_push_str(&mut xml, "  <url>\n    <loc>");
    string_push_str(&mut xml, url);
    string_push_str(&mut xml, "/</loc>\n    <changefreq>");
    string_push_str(&mut xml, change_freq);
    string_push_str(&mut xml, "</changefreq>\n    <priority>1.0</priority>\n  </url>\n");
    push_all(&mut xml, &body);
    string_push_str(&mut xml, "</urlset>\n");
    assert(xml@ =~= sitemap_spec(url@, change_freq@, priority@, posts@)->Some_0);
    Some(xml)
}

/// The RSS item of `p`.
fn rss_item_text(url: &str, p: &FeedPost) -> (r: Option<String>)
    ensures
        opt_view(r) == rss_item(url@, *p),
{
    let date = match instant_text(p.created_at, "%a, %d %b %Y %H:%M:%S %z") {
        Some(d) => d,
        None => return None,
    };
    let mut out = "    <item>\n      <title>".to_owned();
    let title = xml_escape(p.title.as_str());
    push_all(&mut out, &title);
    string_push_str(&mut out, "</title>\n      <link>");
    push_post_link(&mut out, url, &p.slug);
    string_push_str(&mut out, "</link>\n      <guid isPermaLink=\"true\">");
    push_post_link(&mut out, url, &p.slug);
    string_push_str(&mut out, "</guid>\n      <pubDate>");
    push_all(&mut out, &date);
    string_push_str(&mut out, "</pubDate>\n");
    push_optional_line(&mut out, &p.excerpt, "      <description>", "</description>\n");
    string_push_str(&mut out, "    </item>\n");
    assert(optional_line(p.excerpt, "      <description>"@, "</description>\n"@) == match p.excerpt {
        Some(e) => "      <description>"@ + xml_escape_spec(e@) + "</description>\n"@,
        None => Seq::<char>::empty(),
    });
    assert(out@ =~= rss_item(url@, *p)->Some_0);
    Some(out)
}

/// The RSS 2.0 feed of `posts` for the site titled `title` at `url` (see
/// `rss_spec`); `None` where a post's creation time cannot be written.
pub fn generate_rss(title: &str, url: &str, description: &str, posts: &[FeedPost]) -> (r: Option<String>)
    ensures
        opt_view(r) == rss_spec(title@, url@, description@, posts@),
{
    let ghost f = rss_piece(url@);
    let mut items = String::new();
    let mut i: usize = 0;
    assert(posts@.take(0) =~= Seq::<FeedPost>::empty());
    while i < posts.len()
        invariant
            i <= posts.len(),
            f == rss_piece(url@),
            concat_all(posts@.take(i as int), f) == Some(items@),
        decreases posts.len() - i,
    {
        proof {
            lemma_concat_step(posts@, f, i as int);
        }
        match rss_item_text(url, &posts[i]) {
            Some(e) => push_all(&mut items, &e),
            None => {
                proof {
                    lemma_concat_none(posts@, f, i + 1, posts@.len() as int);
                    assert(posts@.take(posts@.len() as int) =~= posts@);
                }
                return None;
            },
        }
        i += 1;
    }
    assert(posts@.take(posts@.len() as int) =~= posts@);
    let mut xml = "<?xml version=\"1.0\" encoding=\"UTF-8\"?>\n".to_owned();
    string_push_str(&mut xml, "<rss version=\"2.0\" xmlns:atom=\"http://www.w3.org/2005/Atom\">\n");
    string_push_str(&mut xml, "  <channel>\n");
    string_push_str(&mut xml, "    <title>");
    let t = xml_escape(title);
    push_all(&mut xml, &t);
    string_push_str(&mut xml, "</title>\n");
    string_push_str(&mut xml, "    <link>");
    string_push_str(&mut xml, url);
    string_push_str(&mut xml, "</link>\n");
    string_push_str(&mut xml, "    <description>");
    let d = xml_escape(description);
    push_all(&mut xml, &d);
    string_push_str(&mut xml, "</description>\n");
    string_push_str(&mut xml, "    <atom:link href=\"");
    string_push_str(&mut xml, url);
    string_push_str(&mut xml, "/feed.xml\" rel=\"self\" type=\"application/rss+xml\" />\n");
    push_all(&mut xml, &items);
    string_push_str(&mut xml, "  </channel>\n</rss>\n");
    assert(xml@ =~= rss_spec(title@, url@, description@, posts@)->Some_0);
    Some(xml)
}

/// The Atom entry of `p`.
fn atom_entry_text(url: &str, p: &FeedPost) -> (r: Option<String>)
    ensures
        opt_view(r) == atom_entry(url@, *p),
{
    let updated = match instant_rfc3339(p.updated_at) {
        Some(d) => d,
        None => return None,
    };
    let mut out = "  <entry>\n    <title>".to_owned();
    let title = xml_escape(p.title.as_str());
    push_all(&mut out, &title);
    string_push_str(&mut out, "</title>\n    <link href=\"");
    push_post_link(&mut out, url, &p.slug);
    string_push_str(&mut out, "\" />\n    <id>");
    push_post_link(&mut out, url, &p.slug);
    string_push_str(&mut out, "</id>\n    <updated>");
    push_all(&mut out, &updated);
    string_push_str(&mut out, "</updated>\n");
    push_optional_line(&mut out, &p.excerpt, "    <summary>", "</summary>\n");
    string_push_str(&mut out, "  </entry>\n");
    assert(optional_line(p.excerpt, "    <summary>"@, "</summary>\n"@) == match p.excerpt {
        Some(e) => "    <summary>"@ + xml_escape_spec(e@) + "</summary>\n"@,
        None => Seq::<char>::empty(),
    });
    assert(out@ =~= atom_entry(url@, *p)->Some_0);
    Some(out)
}

/// The Atom feed of `posts` for the site titled `title` at `url` (see
/// `atom_spec`); `None` where a post's update time cannot be written.
pub fn generate_atom(title: &str, url: &str, posts: &[FeedPost]) -> (r: Option<String>)
    ensures
        opt_view(r) == atom_spec(title@, url@, posts@),
{
    let mut xml = "<?xml version=\"1.0\" encoding=\"UTF-8\"?>\n".to_owned();
    string_push_str(&mut xml, "<feed xmlns=\"http://www.w3.org/2005/Atom\">\n");
    string_push_str(&mut xml, "  <title>");
    let t = xml_escape(title);
    push_all(&mut xml, &t);
    string_push_str(&mut xml, "</title>\n");
    string_push_str(&mut xml, "  <link href=\"");
    string_push_str(&mut xml, url);
    string_push_str(&mut xml, "\" />\n");
    string_push_str(&mut xml, "  <link href=\"");
    string_push_str(&mut xml, url);
    string_push_str(&mut xml, "/atom.xml\" rel=\"self\" />\n");
    string_push_str(&mut xml, "  <id>");
    string_push_str(&mut xml, url);
    string_push_str(&mut xml, "/</id>\n");
    let ghost head = xml@;
    if posts.len() > 0 {
        match instant_rfc3339(posts[0].updated_at) {
            Some(u) => {
                string_push_str(&mut xml, "  <updated>");
                push_all(&mut xml, &u);
                string_push_str(&mut xml, "</updated>\n");
            },
            None => return None,
        }
    }
    assert(atom_updated(posts@) is Some);
    assert(xml@ =~= head + atom_updated(posts@)->Some_0);
    let ghost f = atom_piece(url@);
    let ghost before_entries = xml@;
    let mut entries = String::new();
    let mut i: usize = 0;
    assert(posts@.take(0) =~= Seq::<FeedPost>::empty());
    while i < posts.len()
        invariant
            i <= posts.len(),
            f == atom_piece(url@),
            concat_all(posts@.take(i as int), f) == Some(entries@),
        decreases posts.len() - i,
    {
        proof {
            lemma_concat_step(posts@, f, i as int);
        }
        match atom_entry_text(url, &posts[i]) {
            Some(e) => push_all(&mut entries, &e),
            None => {
                proof {
                    lemma_concat_none(posts@, f, i + 1, posts@.len() as int);
                    assert(posts@.take(posts@.len() as int) =~= posts@);
                }
                return None;
            },
        }
        i += 1;
    }
    assert(posts@.take(posts@.len() as int) =~= posts@);
    push_all(&mut xml, &entries);
    string_push_str(&mut xml, "</feed>\n");
    assert(xml@ =~= atom_spec(title@, url@, posts@)->Some_0);
    Some(xml)
}

/// The number of posts a feed holds: the configured count, at most all.
pub open spec fn feed_count(post_count: nat, n: nat) -> nat {
    if post_count < n {
        post_count
    } else {
        n
    }
}

/// The feed files for `formats`, in order: `feed.xml` (RSS) for `rss`,
/// `atom.xml` for `atom`, each of the first `post_count` posts; any other
/// format is skipped.  `None` where a post's time cannot be written.
pub open spec fn feed_files_spec(
    title: Seq<char>,
    url: Seq<char>,
    description: Seq<char>,
    formats: Seq<Seq<char>>,
    post_count: nat,
    posts: Seq<FeedPost>,
) -> Option<Seq<(Seq<char>, Seq<char>)>>
    decreases formats.len(),
{
    if formats.len() == 0 {
        Some(Seq::empty())
    } else {
        let feed_posts = posts.take(feed_count(post_count, posts.len()) as int);
        match feed_files_spec(title, url, description, formats.drop_last(), post_count, posts) {
            None => None,
            Some(prev) => if formats.last() == "rss"@ {
                match rss_spec(title, url, description, feed_posts) {
                    Some(x) => Some(prev.push(("feed.xml"@, x))),
                    None => None,
                }
            } else if formats.last() == "atom"@ {
                match atom_spec(title, url, feed_posts) {
                    Some(x) => Some(prev.push(("atom.xml"@, x))),
                    None => None,
                }
            } else {
                Some(prev)
            },
        }
    }
}

/// The feed files (name, XML) for the configured formats (see
/// `feed_files_spec`).
pub fn generate_feed(
    title: &str,
    url: &str,
    description: &str,
    formats: &Vec<String>,
    post_count: usize,
    posts: &Vec<FeedPost>,
) -> (r: Option<Vec<(String, String)>>)
    ensures
        match r {
            Some(v) => feed_files_spec(title@, url@, description@, formats.deep_view(), post_count as nat, posts@)
                == Some(pairs_view(v@)),
            None => feed_files_spec(title@, url@, description@, formats.deep_view(), post_count as nat, posts@)
                is None,
        },
{
    let count = if post_count < posts.len() {
        post_count
    } else {
        posts.len()
    };
    let feed_posts = vstd::slice::slice_subrange(posts.as_slice(), 0, count);
    assert(feed_posts@ == posts@.take(count as int));
    let ghost fv = formats.deep_view();
    let mut files: Vec<(String, String)> = Vec::new();
    let mut i: usize = 0;
    assert(fv.take(0) =~= Seq::<Seq<char>>::empty());
    assert(pairs_view(files@) =~= Seq::<(Seq<char>, Seq<char>)>::empty());
    while i < formats.len()
        invariant
            i <= formats.len(),
            fv == formats.deep_view(),
            feed_posts@ == posts@.take(feed_count(post_count as nat, posts@.len()) as int),
            feed_files_spec(title@, url@, description@, fv.take(i as int), post_count as nat, posts@)
                == Some(pairs_view(files@)),
        decreases formats.len() - i,
    {
        let f = formats[i].as_str();
        assert(fv.take(i + 1).drop_last() =~= fv.take(i as int));
        assert(fv.take(i + 1).last() == f@);
        let ghost before = files@;
        if crate::builder::keyed::str_eq(f, "rss") {
            match generate_rss(title, url, description, feed_posts) {
                Some(x) => {
                    files.push(("feed.xml".to_owned(), x));
                    assert(pairs_view(files@) =~= pairs_view(before).push(
                        ("feed.xml"@, files@[files@.len() - 1].1@),
                    ));
                },
                None => {
                    proof {
                        lemma_feed_files_none(title@, url@, description@, fv, post_count as nat, posts@, i + 1);
                        assert(fv.take(fv.len() as int) =~= fv);
                    }
                    return None;
                },
            }
        } else if crate::builder::keyed::str_eq(f, "atom") {
            match generate_atom(title, url, feed_posts) {
                Some(x) => {
                    files.push(("atom.xml".to_owned(), x));
                    assert(pairs_view(files@) =~= pairs_view(before).push(
                        ("atom.xml"@, files@[files@.len() - 1].1@),
                    ));
                },
                None => {
                    proof {
                        lemma_feed_files_none(title@, url@, description@, fv, post_count as nat, posts@, i + 1);
                        assert(fv.take(fv.len() as int) =~= fv);
                    }
                    return None;
                },
            }
        }
        i += 1;
    }
    assert(fv.take(fv.len() as int) =~= fv);
    Some(files)
}

proof fn lemma_feed_files_none(
    title: Seq<char>,
    url: Seq<char>,
    description: Seq<char>,
    fv: Seq<Seq<char>>,
    post_count: nat,
    posts: Seq<FeedPost>,
    i: int,
)
    requires
        0 <= i <= fv.len(),
        feed_files_spec(title, url, description, fv.take(i), post_count, posts) is None,
    ensures
        feed_files_spec(title, url, description, fv.take(fv.len() as int), post_count, posts) is None,
    decreases fv.len() - i,
{
    if i < fv.len() {
        assert(fv.take(i + 1).drop_last() =~= fv.take(i));
        lemma_feed_files_none(title, url, description, fv, post_count, posts, i + 1);
    }
}

/// A post's sitemap entry gives as its last change the calendar day of its
/// update time (`%Y-%m-%d`), whenever that day can be written.
pub proof fn law_sitemap_lastmod_is_update_day(
    url: Seq<char>,
    freq: Seq<char>,
    priority: Seq<char>,
    p: FeedPost,
    day: Seq<char>,
)
    requires
        instant_text_of(p.updated_at, "%Y-%m-%d"@) == Some(day),
    ensures
        sitemap_entry(url, freq, priority, p) matches Some(e) && exists|a: Seq<char>, b: Seq<char>|
            e == a + "<lastmod>"@ + day + "</lastmod>"@ + b,
        sitemap_entry(url, freq, priority, p) matches Some(e) && exists|b: Seq<char>|
            e == "  <url>\n    <loc>"@ + url + "/posts/"@ + p.slug@ + "/</loc>"@ + b,
{
    let a = "  <url>\n    <loc>"@ + post_link(url, p.slug@) + "</loc>\n    "@;
    let b = "\n    <changefreq>"@ + freq + "</changefreq>\n    <priority>"@ + priority
        + "</priority>\n  </url>\n"@;
    reveal_strlit("</loc>\n    <lastmod>");
    reveal_strlit("</loc>\n    ");
    reveal_strlit("<lastmod>");
    reveal_strlit("</lastmod>\n    <changefreq>");
    reveal_strlit("</lastmod>");
    reveal_strlit("\n    <changefreq>");
    let e = sitemap_entry(url, freq, priority, p)->Some_0;
    assert(e =~= a + "<lastmod>"@ + day + "</lastmod>"@ + b);
    reveal_strlit("/");
    reveal_strlit("/</loc>");
    reveal_strlit("\n    <lastmod>");
    let b2 = "\n    <lastmod>"@ + day + "</lastmod>"@ + b;
    assert(e =~= "  <url>\n    <loc>"@ + url + "/posts/"@ + p.slug@ + "/</loc>"@ + b2);
}

/// The sitemap does not depend on when posts were created: two lists of
/// posts with the same slugs and update times, in the same order, give the
/// same sitemap.
pub proof fn law_sitemap_ignores_creation(
    url: Seq<char>,
    freq: Seq<char>,
    priority: Seq<char>,
    ps: Seq<FeedPost>,
    qs: Seq<FeedPost>,
)
    requires
        ps.len() == qs.len(),
        forall|i: int|
            0 <= i < ps.len() ==> (#[trigger] ps[i]).slug@ == qs[i].slug@ && ps[i].updated_at
                == qs[i].updated_at,
    ensures
        sitemap_spec(url, freq, priority, ps) == sitemap_spec(url, freq, priority, qs),
    decreases ps.len(),
{
    lemma_sitemap_pieces_agree(url, freq, priority, ps, qs);
}

proof fn lemma_sitemap_pieces_agree(
    url: Seq<char>,
    freq: Seq<char>,
    priority: Seq<char>,
    ps: Seq<FeedPost>,
    qs: Seq<FeedPost>,
)
    requires
        ps.len() == qs.len(),
        forall|i: int|
            0 <= i < ps.len() ==> (#[trigger] ps[i]).slug@ == qs[i].slug@ && ps[i].updated_at
                == qs[i].updated_at,
    ensures
        concat_all(ps, sitemap_piece(url, freq, priority)) == concat_all(qs, sitemap_piece(url, freq, priority)),
    decreases ps.len(),
{
    if ps.len() > 0 {
        let pd = ps.drop_last();
        let qd = qs.drop_last();
        assert forall|i: int| 0 <= i < pd.len() implies (#[trigger] pd[i]).slug@ == qd[i].slug@
            && pd[i].updated_at == qd[i].updated_at by {
            assert(pd[i] == ps[i] && qd[i] == qs[i]);
        }
        lemma_sitemap_pieces_agree(url, freq, priority, pd, qd);
        assert(ps[ps.len() - 1].slug@ == qs[qs.len() - 1].slug@);
        assert(sitemap_entry(url, freq, priority, ps.last()) == sitemap_entry(url, freq, priority, qs.last()));
    }
}

} // verus!
