use cblog::builder::graph::DepGraph;
use cblog::builder::incremental::HashCache;
use cblog::builder::pipeline::{
    affected_urls, compute_post_hash, full_build_needed, plan_incremental, should_full_rebuild, HashProbe,
    IncrementalPlan,
};
use cblog::builder::stages::finalize::{
    generate_atom, generate_feed, generate_rss, generate_sitemap, xml_escape, FeedPost,
};
use cblog::builder::stages::generate::{
    archive_page, category_page, paginate, post_neighbors, post_url, tag_page,
};
use cblog::builder::stages::load::{nonempty_meta, post_excerpt, tags_from_meta};
use cblog::builder::stages::postprocess::{add_lazy_loading, apply, lazy_img_tag};
use cblog::builder::stages::taxonomy::build_taxonomy;
use cblog::content::PostRef;

#[test]
fn dep_graph_records_and_clears() {
    let mut g = DepGraph::new("cache/deps.json".to_string());
    g.add_dependency("post", "/posts/a/");
    g.add_dependency("post", "/posts/b/");
    g.add_dependency("index", "/");
    assert_eq!(g.get_affected_pages("post"), vec!["/posts/a/", "/posts/b/"]);
    assert_eq!(g.get_affected_pages("index"), vec!["/"]);
    assert!(g.get_affected_pages("tag").is_empty());
    assert_eq!(g.entries().len(), 2);
    assert_eq!(g.cache_path(), "cache/deps.json");
    g.clear();
    assert!(g.get_affected_pages("post").is_empty());
}

#[test]
fn dep_graph_from_entries_keeps_last_duplicate() {
    let g = DepGraph::from_entries(
        "p".to_string(),
        vec![
            ("t".to_string(), vec!["/1/".to_string()]),
            ("t".to_string(), vec!["/2/".to_string()]),
        ],
    );
    assert_eq!(g.get_affected_pages("t"), vec!["/2/"]);
}

#[test]
fn hash_cache_tracks_changes() {
    let mut c = HashCache::new("cache/hashes.json".to_string());
    assert!(c.has_changed("post:a", "h1"));
    c.update("post:a".to_string(), "h1".to_string());
    assert!(!c.has_changed("post:a", "h1"));
    assert!(c.has_changed("post:a", "h2"));
    assert!(!c.config_changed(None));
    assert!(c.config_changed(Some("x")));
    c.update("cblog.toml".to_string(), "x".to_string());
    assert!(!c.config_changed(Some("x")));
    let mut keys = c.cached_post_keys();
    keys.sort();
    assert_eq!(keys, vec!["post:a"]);
}

#[test]
fn hash_cache_templates() {
    let mut c = HashCache::new("p".to_string());
    let t = vec![("post.cbtml".to_string(), "1".to_string()), ("base.cbtml".to_string(), "2".to_string())];
    assert_eq!(c.changed_templates(&t), vec!["post.cbtml", "base.cbtml"]);
    c.update_templates(&t);
    assert!(c.changed_templates(&t).is_empty());
    let t2 = vec![("post.cbtml".to_string(), "9".to_string())];
    assert_eq!(c.changed_templates(&t2), vec!["post.cbtml"]);
    assert!(!c.has_changed("template:base.cbtml", "2"));
}

#[test]
fn hash_bytes_is_sha256() {
    assert_eq!(
        HashCache::hash_bytes(b"hello"),
        "2cf24dba5fb0a30e26e83b2ac5b9e29e1b161e5c1fa7425e73043362938b9824"
    );
}

#[test]
fn post_hash_uses_fingerprint() {
    let h = compute_post_hash("a", "T", "c", "2024", "{}");
    assert_eq!(h, HashCache::hash_bytes("a|T|c|2024|{}".as_bytes()));
}

#[test]
fn full_rebuild_decisions() {
    let mut c = HashCache::new("p".to_string());
    c.update("cblog.toml".to_string(), "cfg".to_string());
    c.update("theme.toml".to_string(), "thm".to_string());
    let cfg = HashProbe::Hash("cfg".to_string());
    let thm = HashProbe::Hash("thm".to_string());
    assert!(!should_full_rebuild(&c, &cfg, &thm, true));
    assert!(should_full_rebuild(&c, &cfg, &thm, false));
    assert!(should_full_rebuild(&c, &HashProbe::Hash("new".to_string()), &thm, true));
    assert!(should_full_rebuild(&c, &HashProbe::Failed, &thm, true));
    assert!(should_full_rebuild(&c, &cfg, &HashProbe::Failed, true));
    assert!(!should_full_rebuild(&c, &HashProbe::Absent, &HashProbe::Absent, true));
    assert!(full_build_needed(true, &c, &cfg, &thm, true));
    assert!(!full_build_needed(false, &c, &cfg, &thm, true));
    assert!(full_build_needed(false, &c, &cfg, &thm, false));
}

#[test]
fn incremental_plans() {
    let mut deps = DepGraph::new("d".to_string());
    deps.add_dependency("post", "/posts/a/");
    deps.add_dependency("post", "/posts/b/");
    deps.add_dependency("index", "/");
    let mut cache = HashCache::new("c".to_string());
    let posts = vec![("a".to_string(), "1".to_string()), ("b".to_string(), "2".to_string())];
    let none: Vec<String> = Vec::new();
    assert!(matches!(plan_incremental(&mut cache, &posts, &none, &deps), IncrementalPlan::RenderAll));
    assert!(matches!(plan_incremental(&mut cache, &posts, &none, &deps), IncrementalPlan::NothingChanged));
    let changed = vec!["post.cbtml".to_string(), "index.cbtml".to_string()];
    match plan_incremental(&mut cache, &posts, &changed, &deps) {
        IncrementalPlan::RenderOnly(urls) => {
            let mut urls = urls;
            urls.sort();
            assert_eq!(urls, vec!["/", "/posts/a/", "/posts/b/"]);
        }
        other => panic!("unexpected {other:?}"),
    }
    let fewer = vec![("a".to_string(), "1".to_string())];
    assert!(matches!(plan_incremental(&mut cache, &fewer, &none, &deps), IncrementalPlan::RenderAll));
    let edited = vec![("a".to_string(), "changed".to_string())];
    assert!(matches!(plan_incremental(&mut cache, &edited, &none, &deps), IncrementalPlan::RenderAll));
}

#[test]
fn affected_urls_are_unique() {
    let mut deps = DepGraph::new("d".to_string());
    deps.add_dependency("post", "/x/");
    deps.add_dependency("post", "/x/");
    deps.add_dependency("base", "/x/");
    let urls = affected_urls(&deps, &vec!["post.cbtml".to_string(), "base".to_string()]);
    assert_eq!(urls, vec!["/x/"]);
}

#[test]
fn xml_escaping() {
    assert_eq!(xml_escape("a<b>&\"c'"), "a&lt;b&gt;&amp;&quot;c&apos;");
}

#[test]
fn pagination_covers_all_posts() {
    let pages = paginate(25, 10);
    assert_eq!(pages.len(), 3);
    assert_eq!((pages[0].start, pages[0].end), (0, 10));
    assert_eq!((pages[2].start, pages[2].end), (20, 25));
    assert_eq!(pages[0].url, "/");
    assert_eq!(pages[1].url, "/page/2/");
    assert_eq!(pages[1].prev.as_deref(), Some("/"));
    assert_eq!(pages[1].next.as_deref(), Some("/page/3/"));
    assert_eq!(pages[2].next, None);
    assert_eq!(pages[0].title, None);
    assert_eq!(pages[2].title.as_deref(), Some("第 3 页"));
    let empty = paginate(0, 10);
    assert_eq!(empty.len(), 1);
    assert_eq!((empty[0].start, empty[0].end), (0, 0));
    for (n, per) in [(1usize, 1usize), (10, 10), (11, 10), (99, 7)] {
        let ps = paginate(n, per);
        let expected = ((n as f64) / per as f64).ceil().max(1.0) as usize;
        assert_eq!(ps.len(), expected);
        assert_eq!(ps.last().unwrap().end, n);
    }
}

#[test]
fn page_urls_and_titles() {
    assert_eq!(post_url("hello"), "/posts/hello/");
    assert_eq!(tag_page("Rust Lang"), ("/tags/rust-lang/".to_string(), "标签：Rust Lang".to_string()));
    assert_eq!(category_page("Web"), ("/category/web/".to_string(), "分类：Web".to_string()));
    assert_eq!(archive_page(2024, 3), ("/archive/2024/03/".to_string(), "2024年3月".to_string()));
    assert_eq!(archive_page(2024, 12), ("/archive/2024/12/".to_string(), "2024年12月".to_string()));
}

fn feed_post(slug: &str, title: &str, excerpt: Option<&str>, created: i64, updated: i64) -> FeedPost {
    FeedPost {
        slug: slug.to_string(),
        title: title.to_string(),
        excerpt: excerpt.map(|e| e.to_string()),
        created_at: (created, 0),
        updated_at: (updated, 0),
    }
}

#[test]
fn sitemap_lists_home_and_posts() {
    let posts = vec![feed_post("hello", "Hello", None, 1705314600, 1705314600)];
    let xml = generate_sitemap("https://ex.com", "weekly", "0.8", &posts).unwrap();
    assert_eq!(
        xml,
        "<?xml version=\"1.0\" encoding=\"UTF-8\"?>\n\
         <urlset xmlns=\"http://www.sitemaps.org/schemas/sitemap/0.9\">\n  \
         <url>\n    <loc>https://ex.com/</loc>\n    <changefreq>weekly</changefreq>\n    <priority>1.0</priority>\n  </url>\n  \
         <url>\n    <loc>https://ex.com/posts/hello/</loc>\n    <lastmod>2024-01-15</lastmod>\n    <changefreq>weekly</changefreq>\n    <priority>0.8</priority>\n  </url>\n\
         </urlset>\n"
    );
}

#[test]
fn rss_feed_escapes_and_dates() {
    let posts = vec![feed_post("a-b", "A & B", Some("x < y"), 1705314600, 1705314600)];
    let xml = generate_rss("My <Blog>", "https://ex.com", "d'oh", &posts).unwrap();
    assert!(xml.contains("    <title>My &lt;Blog&gt;</title>\n"));
    assert!(xml.contains("    <description>d&apos;oh</description>\n"));
    assert!(xml.contains(
        "    <item>\n      <title>A &amp; B</title>\n      <link>https://ex.com/posts/a-b/</link>\n      \
         <guid isPermaLink=\"true\">https://ex.com/posts/a-b/</guid>\n      \
         <pubDate>Mon, 15 Jan 2024 10:30:00 +0000</pubDate>\n      \
         <description>x &lt; y</description>\n    </item>\n"
    ));
    assert!(xml.ends_with("  </channel>\n</rss>\n"));
}

#[test]
fn atom_feed_uses_first_post_update() {
    let posts = vec![
        feed_post("new", "New", None, 1705314600, 1705314600),
        feed_post("old", "Old", Some("s"), 1705276800, 1705276800),
    ];
    let xml = generate_atom("T", "https://ex.com", &posts).unwrap();
    assert!(xml.contains("  <id>https://ex.com/</id>\n  <updated>2024-01-15T10:30:00+00:00</updated>\n  <entry>\n"));
    assert!(xml.contains("    <updated>2024-01-15T00:00:00+00:00</updated>\n    <summary>s</summary>\n  </entry>\n"));
    let empty = generate_atom("T", "https://ex.com", &[]).unwrap();
    assert!(!empty.contains("<updated>"));
}

#[test]
fn feed_files_follow_formats_and_count() {
    let posts = vec![
        feed_post("one", "One", None, 1705314600, 1705314600),
        feed_post("two", "Two", None, 1705276800, 1705276800),
    ];
    let formats = vec!["rss".to_string(), "json".to_string(), "atom".to_string()];
    let files = generate_feed("T", "https://ex.com", "D", &formats, 1, &posts).unwrap();
    assert_eq!(files.len(), 2);
    assert_eq!(files[0].0, "feed.xml");
    assert_eq!(files[1].0, "atom.xml");
    assert!(files[0].1.contains("/posts/one/"));
    assert!(!files[0].1.contains("/posts/two/"));
    assert!(!files[1].1.contains("/posts/two/"));
}

fn post_ref(slug: &str, tags: &[&str], category: Option<&str>) -> PostRef {
    PostRef {
        id: format!("id-{slug}"),
        slug: slug.to_string(),
        title: slug.to_uppercase(),
        url: format!("/posts/{slug}/"),
        excerpt: None,
        cover_image: None,
        created_at: "2024-01-15T00:00:00+00:00".to_string(),
        tags: tags.iter().map(|t| t.to_string()).collect(),
        category: category.map(|c| c.to_string()),
        reading_time: 1,
    }
}

fn slugs(v: &[PostRef]) -> Vec<String> {
    v.iter().map(|p| p.slug.clone()).collect()
}

#[test]
fn taxonomy_groups_posts() {
    let posts = vec![
        (post_ref("a", &["rust", "web"], Some("tech")), 2024, 3),
        (post_ref("b", &["web"], None), 2023, 12),
        (post_ref("c", &["rust"], Some("tech")), 2024, 3),
        (post_ref("d", &[], Some("life")), 2024, 1),
    ];
    let idx = build_taxonomy(&posts);
    let tags: Vec<(String, Vec<String>)> = idx.tags.iter().map(|(k, v)| (k.clone(), slugs(v))).collect();
    assert_eq!(
        tags,
        vec![
            ("rust".to_string(), vec!["a".to_string(), "c".to_string()]),
            ("web".to_string(), vec!["a".to_string(), "b".to_string()]),
        ]
    );
    let cats: Vec<(String, Vec<String>)> =
        idx.categories.iter().map(|(k, v)| (k.clone(), slugs(v))).collect();
    assert_eq!(
        cats,
        vec![
            ("tech".to_string(), vec!["a".to_string(), "c".to_string()]),
            ("life".to_string(), vec!["d".to_string()]),
        ]
    );
    let months: Vec<((i32, u32), Vec<String>)> =
        idx.archives.iter().map(|(k, v)| (*k, slugs(v))).collect();
    assert_eq!(
        months,
        vec![
            ((2023, 12), vec!["b".to_string()]),
            ((2024, 1), vec!["d".to_string()]),
            ((2024, 3), vec!["a".to_string(), "c".to_string()]),
        ]
    );
    assert_eq!(idx.tags[0].1[1].url, "/posts/c/");
}

#[test]
fn images_get_lazy_loading() {
    let html = "<p><img src=\"a.png\"><img loading=\"eager\" src=\"b\"/></p><img/>".to_string();
    assert_eq!(
        add_lazy_loading(html.clone()),
        "<p><img loading=\"lazy\" src=\"a.png\"><img loading=\"eager\" src=\"b\"/></p><img loading=\"lazy\"/>"
    );
    assert_eq!(apply(html.clone(), false), html);
    assert_eq!(lazy_img_tag(" alt=\"x\"", ">"), "<img loading=\"lazy\" alt=\"x\">");
    assert_eq!(lazy_img_tag(" loading=\"eager\"", "/>"), "<img loading=\"eager\"/>");
}

#[test]
fn pages_whose_images_set_loading_are_unchanged() {
    let html = "<h1>é 标题</h1><img loading=\"eager\" src=\"x\">text<img src=\"y\" loading=\"lazy\"/>".to_string();
    assert_eq!(add_lazy_loading(html.clone()), html);
    let plain = "<p>no images, ünïcode</p>".to_string();
    assert_eq!(add_lazy_loading(plain.clone()), plain);
    assert_eq!(add_lazy_loading("ä<img>ö".to_string()), "ä<img loading=\"lazy\">ö");
}

#[test]
fn stored_post_metadata() {
    assert_eq!(tags_from_meta(Some(" rust, web ,, ")), vec!["rust".to_string(), "web".to_string()]);
    assert!(tags_from_meta(None).is_empty());
    assert!(tags_from_meta(Some("")).is_empty());
    assert_eq!(nonempty_meta(Some("")), None);
    assert_eq!(nonempty_meta(Some("cover.png")), Some("cover.png".to_string()));
    assert_eq!(post_excerpt(Some("own".to_string()), "<p>Body text.</p>", 10), "own");
    assert_eq!(post_excerpt(None, "<p>Body text.</p>", 100), "Body text.");
}

#[test]
fn post_pages_link_to_neighbors() {
    assert_eq!(post_neighbors(0, 3), (Some(1), None));
    assert_eq!(post_neighbors(1, 3), (Some(2), Some(0)));
    assert_eq!(post_neighbors(2, 3), (None, Some(1)));
    assert_eq!(post_neighbors(0, 1), (None, None));
}
