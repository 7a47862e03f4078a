use cblog::admin::plugin_page::{
    plugin_page_labels, plugin_page_template, plugin_page_view, PluginPageView, TemplateRender,
};
use cblog::builder::pipeline::{builtin_feature_warnings, select_pages};
use cblog::builder::stages::generate::{generate_pages, PageKind, PostSource};
use cblog::builder::stages::load::{created_instant, load_posts, select_published, PostRow, StoredPost};
use cblog::cbtml::filters::filter_slugify;
use cblog::content::frontmatter::{front_matter_parts, split_front_matter};
use cblog::content::TaxonomyIndex;

fn strings(v: &[&str]) -> Vec<String> {
    v.iter().map(|s| s.to_string()).collect()
}

#[test]
fn full_build_selects_every_page() {
    let urls = strings(&["/", "/a/", "/b/"]);
    assert_eq!(select_pages(&urls, None), (vec![0, 1, 2], 0));
}

#[test]
fn incremental_build_selects_listed_pages() {
    let urls = strings(&["/", "/a/", "/b/"]);
    assert_eq!(select_pages(&urls, Some(strings(&["/b/", "/x/"]))), (vec![2], 2));
    assert_eq!(select_pages(&urls, Some(strings(&["/a/", "/"]))), (vec![0, 1], 1));
    assert_eq!(select_pages(&urls, Some(vec![])), (vec![], 3));
}

#[test]
fn builtin_plugins_are_warned_about() {
    let w = builtin_feature_warnings(&strings(&["toc", "my-plugin", "syntax-highlight"]));
    assert_eq!(
        w,
        vec![
            "插件 'toc' 已内置为核心功能，请从 [plugins] enabled 中移除。可通过 [features.toc] enabled = false 禁用。"
                .to_string(),
            "插件 'syntax-highlight' 已内置为核心功能，请从 [plugins] enabled 中移除。可通过 [features.syntax_highlight] enabled = false 禁用。"
                .to_string(),
        ]
    );
    assert!(builtin_feature_warnings(&strings(&["seo"])).is_empty());
}

fn row(slug: &str, status: &str, secs: i64) -> PostRow {
    PostRow { slug: slug.to_string(), status: status.to_string(), created: (secs, 0) }
}

#[test]
fn published_rows_newest_first() {
    let rows = vec![
        row("a", "published", 100),
        row("b", "draft", 300),
        row("c", "published", 200),
        row("d", "published", 100),
    ];
    assert_eq!(select_published(&rows), vec![2, 0, 3]);
    assert!(select_published(&vec![row("x", "draft", 1)]).is_empty());
}

#[test]
fn creation_time_falls_back_to_now() {
    assert_eq!(created_instant("2024-01-02T03:04:05Z", (7, 0)), (1704164645, 0));
    assert_eq!(created_instant("2024-01-02T03:04:05+01:00", (7, 0)), (1704161045, 0));
    assert_eq!(created_instant("junk", (7, 9)), (7, 9));
}

#[test]
fn pages_for_posts_indexes_and_taxonomy() {
    let posts = vec![
        PostSource { slug: "a".into(), title: "A".into(), template: None },
        PostSource { slug: "b".into(), title: "B".into(), template: Some("custom".into()) },
        PostSource { slug: "c".into(), title: "C".into(), template: None },
    ];
    let taxonomy = TaxonomyIndex {
        tags: vec![("Rust Lang".to_string(), vec![])],
        categories: vec![("Tech".to_string(), vec![])],
        archives: vec![((2024, 3), vec![])],
    };
    let pages = generate_pages(&posts, &taxonomy, 2, "My Site");
    let urls: Vec<&str> = pages.iter().map(|p| p.url.as_str()).collect();
    assert_eq!(
        urls,
        vec!["/posts/a/", "/posts/b/", "/posts/c/", "/", "/page/2/", "/tags/rust-lang/", "/category/tech/", "/archive/2024/03/"]
    );
    let templates: Vec<&str> = pages.iter().map(|p| p.template.as_str()).collect();
    assert_eq!(templates, vec!["post", "custom", "post", "index", "index", "tag", "category", "archive"]);
    let titles: Vec<&str> = pages.iter().map(|p| p.title.as_str()).collect();
    assert_eq!(titles, vec!["A", "B", "C", "My Site", "第 2 页", "标签：Rust Lang", "分类：Tech", "2024年3月"]);
    assert!(matches!(pages[0].kind, PageKind::Post { index: 0, prev: Some(1), next: None }));
    assert!(matches!(pages[2].kind, PageKind::Post { index: 2, prev: None, next: Some(1) }));
    match &pages[4].kind {
        PageKind::Index(ip) => {
            assert_eq!((ip.number, ip.start, ip.end), (2, 2, 3));
            assert_eq!(ip.prev.as_deref(), Some("/"));
            assert_eq!(ip.next, None);
        }
        _ => panic!("index page expected"),
    }
    assert!(matches!(pages[7].kind, PageKind::Archive(0)));
}

#[test]
fn no_posts_still_give_one_index_page() {
    let taxonomy = TaxonomyIndex { tags: vec![], categories: vec![], archives: vec![] };
    let pages = generate_pages(&vec![], &taxonomy, 10, "S");
    assert_eq!(pages.len(), 1);
    assert_eq!(pages[0].url, "/");
}

#[test]
fn front_matter_is_split_from_body() {
    assert_eq!(
        split_front_matter("---\ntitle: Hello\n---\nBody text"),
        (Some("title: Hello".to_string()), "Body text".to_string())
    );
    assert_eq!(split_front_matter("Just text here"), (None, "Just text here".to_string()));
    let bad = "---\nkey: a: b\n---\nBody";
    assert_eq!(split_front_matter(bad), (None, bad.to_string()));
}

#[test]
fn front_matter_parts_from_parser_result() {
    assert_eq!(front_matter_parts(Some(("".into(), "b".into())), "x"), (None, "b".to_string()));
    assert_eq!(front_matter_parts(Some(("k: v".into(), "b".into())), "x"), (Some("k: v".to_string()), "b".to_string()));
    assert_eq!(front_matter_parts(None, "x"), (None, "x".to_string()));
}

#[test]
fn plugin_page_labels_and_outcomes() {
    assert_eq!(
        plugin_page_labels("seo", "stats"),
        ("/admin/ext/seo/stats".to_string(), "seo - stats".to_string(), "plugins/seo/admin/stats.cbtml".to_string())
    );
    match plugin_page_template("seo", "stats", None, "/p/stats.cbtml") {
        Some(Err(PluginPageView::Empty(m))) => assert_eq!(m, "插件页面模板不存在：/p/stats.cbtml"),
        _ => panic!("empty message expected"),
    }
    match plugin_page_template("seo", "stats", Some("br\n".to_string()), "/p/stats.cbtml") {
        Some(Ok(t)) => assert_eq!(t, "<br />"),
        _ => panic!("compiled template expected"),
    }
    match plugin_page_template("seo", "stats", Some("{# open\nnever closed\n".to_string()), "/p") {
        Some(Err(PluginPageView::Error(m))) => assert!(m.starts_with("CBTML 编译失败：")),
        _ => panic!("compile error expected"),
    }
    assert!(plugin_page_template("seo", "stats", Some("{#}\n".to_string()), "/p").is_none());
    match plugin_page_view(TemplateRender::Failed("boom".into())) {
        PluginPageView::Error(m) => assert_eq!(m, "模板渲染失败：boom"),
        _ => panic!("error expected"),
    }
    match plugin_page_view(TemplateRender::Rendered("<p>x</p>".into())) {
        PluginPageView::Content(c) => assert_eq!(c, "<p>x</p>"),
        _ => panic!("content expected"),
    }
    assert!(matches!(plugin_page_view(TemplateRender::NotLoaded), PluginPageView::LoadFailed));
}

#[test]
fn slugs_hold_only_hyphens_and_alphanumerics() {
    let s = filter_slugify("Hello, World! 你好 -- x_y".to_string());
    assert_eq!(s, "hello-world-你好-x-y");
    assert!(s.chars().all(|c| c == '-' || c.is_alphanumeric()));
}

fn stored(slug: &str, status: &str, created: &str, tags: Option<&str>, excerpt: Option<&str>) -> StoredPost {
    StoredPost {
        slug: slug.to_string(),
        title: slug.to_uppercase(),
        content: format!("<p>Body of {slug}.</p>"),
        status: status.to_string(),
        created_at: created.to_string(),
        updated_at: "not a time".to_string(),
        meta_tags: tags.map(|t| t.to_string()),
        meta_category: Some(String::new()),
        meta_cover: Some("c.png".to_string()),
        meta_excerpt: excerpt.map(|e| e.to_string()),
    }
}

#[test]
fn stored_posts_load_published_newest_first() {
    let rows = vec![
        stored("old", "published", "2024-01-01T00:00:00Z", Some(" a, b ,"), None),
        stored("draft", "draft", "2024-06-01T00:00:00Z", None, None),
        stored("new", "published", "2024-03-01T00:00:00Z", None, Some("")),
    ];
    let posts = load_posts(&rows, (0, 0), 160);
    assert_eq!(posts.len(), 2);
    assert_eq!((posts[0].index, posts[0].slug.as_str()), (2, "new"));
    assert_eq!((posts[1].index, posts[1].slug.as_str()), (0, "old"));
    assert_eq!(posts[1].tags, vec!["a".to_string(), "b".to_string()]);
    assert_eq!(posts[1].category, None);
    assert_eq!(posts[1].cover_image, Some("c.png".to_string()));
    assert_eq!(posts[0].excerpt, "Body of new.");
    assert_eq!(posts[0].updated, posts[0].created);
    assert_eq!(posts[1].created, (1704067200, 0));
}
