use cblog::builder::graph::DepGraph;
use cblog::builder::pipeline::{record_page_dependencies, render_plan, unchanged_build_stats};
use cblog::builder::stages::generate::{generate_pages, PostSource};
use cblog::content::TaxonomyIndex;
use cblog::admin::plugin_page::{plugin_page_outcome, PluginPageView, TemplateRender};
use cblog::admin::template::fn_svg_icon;
use cblog::builder::stages::render::{
    output_file, plugin_page_render, render_admin, render_page, template_environment, theme_template_entries,
};

fn named(v: &[(&str, &str)]) -> Vec<(String, String)> {
    v.iter().map(|(a, b)| (a.to_string(), b.to_string())).collect()
}

#[test]
fn pages_map_to_files() {
    assert_eq!(output_file("/posts/a/"), "posts/a/index.html");
    assert_eq!(output_file("/"), "index.html");
    assert_eq!(output_file("/feed.xml"), "feed.xml");
    assert_eq!(output_file("//x/"), "x/index.html");
}

#[test]
fn pages_render_with_the_template_filters() {
    let env = template_environment(
        &named(&[
            ("post.cbtml", "<h1>{{ title | upper }}</h1><a href=\"{{ tag | tag_url }}\">{{ flag | active_class }}</a>"),
            ("bad.cbtml", "{{ title | no_such_filter }}"),
        ]),
        false,
    )
    .unwrap();
    assert_eq!(
        render_page(&env, "/posts/a/", "post", "{\"title\":\"hi\",\"tag\":\"Rust Lang\",\"flag\":true}"),
        Some(Ok(("posts/a/index.html".to_string(), "<h1>HI</h1><a href=\"/tags/rust-lang/\">active</a>".to_string())))
    );
    assert_eq!(render_page(&env, "/x/", "missing", "{}"), None);
    match render_page(&env, "/b/", "bad", "{\"title\":\"t\"}") {
        Some(Err(m)) => assert!(m.starts_with("渲染页面 /b/ 失败（模板：bad.cbtml）：\n")),
        other => panic!("render error expected, got {other:?}"),
    }
}

#[test]
fn later_templates_replace_earlier_ones() {
    let env = template_environment(&named(&[("a", "one"), ("a", "two")]), false).unwrap();
    assert_eq!(render_admin(&env, "a", "{}"), Ok("two".to_string()));
}

#[test]
fn templates_that_do_not_parse_are_reported() {
    match template_environment(&named(&[("ok", "x"), ("broken", "{% if %}")]), false) {
        Err((name, msg)) => {
            assert_eq!(name, "broken");
            assert!(!msg.is_empty());
        }
        Ok(_) => panic!("parse error expected"),
    }
}

#[test]
fn admin_pages_render_with_admin_helpers() {
    let env = template_environment(
        &named(&[("icon", "{{ svg_icon(\"posts\") }}"), ("when", "{{ t | format_datetime }}")]),
        true,
    )
    .unwrap();
    assert_eq!(render_admin(&env, "icon", "{}"), Ok(fn_svg_icon("posts".to_string())));
    assert_eq!(render_admin(&env, "when", "{\"t\":\"2024-05-06T07:08:09Z\"}"), Ok("2024-05-06 07:08:09".to_string()));
    assert_eq!(render_admin(&env, "nope", "{}"), Err("后台模板 nope 不存在".to_string()));
}

#[test]
fn plugin_pages_render_their_compiled_template() {
    match plugin_page_render("<p>{{ plugin_name }}</p>", "{\"plugin_name\":\"seo\"}") {
        TemplateRender::Rendered(h) => assert_eq!(h, "<p>seo</p>"),
        other => panic!("rendered page expected, got {other:?}"),
    }
    assert!(matches!(plugin_page_render("{% if %}", "{}"), TemplateRender::NotLoaded));
    assert!(matches!(
        plugin_page_outcome("seo", "stats", Some("p {% if %}\n".to_string()), "/p", "{}"),
        Some(PluginPageView::LoadFailed)
    ));
    match plugin_page_outcome("seo", "stats", Some("p {{ plugin_name }}\n".to_string()), "/p", "{\"plugin_name\":\"seo\"}") {
        Some(PluginPageView::Content(h)) => assert_eq!(h, "<p>seo</p>"),
        other => panic!("content expected, got {other:?}"),
    }
}

#[test]
fn theme_templates_are_namespaced() {
    let ts = vec![
        ("aurora".to_string(), "post.cbtml".to_string(), "A".to_string()),
        ("other".to_string(), "post.cbtml".to_string(), "B".to_string()),
    ];
    assert_eq!(
        theme_template_entries(&ts, "aurora"),
        named(&[("aurora/post.cbtml", "A"), ("post.cbtml", "A"), ("other/post.cbtml", "B")])
    );
}

#[test]
fn plugin_pages_have_the_template_filters() {
    match plugin_page_render("{{ t | slugify }}", "{\"t\":\"Hello World\"}") {
        TemplateRender::Rendered(h) => assert_eq!(h, "hello-world"),
        other => panic!("rendered page expected, got {other:?}"),
    }
    match plugin_page_render("{{ t | no_such_filter }}", "{\"t\":1}") {
        TemplateRender::Failed(e) => assert!(!e.is_empty()),
        other => panic!("render error expected, got {other:?}"),
    }
}

#[test]
fn build_counts_and_dependencies() {
    let urls: Vec<String> = vec!["/".into(), "/a/".into(), "/b/".into()];
    let (picked, stats) = render_plan(&urls, Some(vec!["/a/".into()]));
    assert_eq!(picked, vec![1]);
    assert_eq!((stats.total_pages, stats.rebuilt, stats.cached), (3, 1, 2));
    let s = unchanged_build_stats(5);
    assert_eq!((s.total_pages, s.rebuilt, s.cached), (5, 0, 5));
    let posts = vec![PostSource { slug: "a".into(), title: "A".into(), template: None }];
    let taxonomy = TaxonomyIndex { tags: vec![], categories: vec![], archives: vec![] };
    let pages = generate_pages(&posts, &taxonomy, 10, "S");
    let mut g = DepGraph::new("d".to_string());
    g.add_dependency("old", "/gone/");
    record_page_dependencies(&mut g, &pages);
    assert!(g.get_affected_pages("old").is_empty());
    assert_eq!(g.get_affected_pages("post"), vec!["/posts/a/".to_string()]);
    assert_eq!(g.get_affected_pages("index"), vec!["/".to_string()]);
}
