//! The admin page of a plugin: the labels it is shown under, the template it
//! compiles from, and what the page shows for each outcome.
use crate::cbtml::error::{format_error_spec, ErrorSpec};
use crate::builder::stages::render::{env_rendered, jinja_accepts, page_env_ok, plugin_page_render, TemplateEnv};
use crate::cbtml::{compile_spec, try_compile};
use crate::text::{byte_len, push_all, string_push_str};
use vstd::prelude::*;

verus! {

/// The sidebar path that marks a plugin page as active.
pub open spec fn plugin_active_path(plugin: Seq<char>, slug: Seq<char>) -> Seq<char> {
    "/admin/ext/"@ + plugin + "/"@ + slug
}

/// The title of a plugin page.
pub open spec fn plugin_page_title(plugin: Seq<char>, slug: Seq<char>) -> Seq<char> {
    plugin + " - "@ + slug
}

/// The name under which a plugin page's template is compiled.
pub open spec fn plugin_template_label(plugin: Seq<char>, slug: Seq<char>) -> Seq<char> {
    "plugins/"@ + plugin + "/admin/"@ + slug + ".cbtml"@
}

/// The active path, the title and the template name of page `slug` of
/// `plugin`.
pub fn plugin_page_labels(plugin: &str, slug: &str) -> (r: (String, String, String))
    ensures
        r.0@ == plugin_active_path(plugin@, slug@),
        r.1@ == plugin_page_title(plugin@, slug@),
        r.2@ == plugin_template_label(plugin@, slug@),
{
    let mut active = "/admin/ext/".to_owned();
    string_push_str(&mut active, plugin);
    string_push_str(&mut active, "/");
    string_push_str(&mut active, slug);
    let mut title = plugin.to_owned();
    string_push_str(&mut title, " - ");
    string_push_str(&mut title, slug);
    let mut label = "plugins/".to_owned();
    string_push_str(&mut label, plugin);
    string_push_str(&mut label, "/admin/");
    string_push_str(&mut label, slug);
    string_push_str(&mut label, ".cbtml");
    (active, title, label)
}

/// What the admin layout shows in place of a plugin page.
#[derive(Debug)]
pub enum PluginPageView {
    /// The page as its template rendered it.
    Content(String),
    /// The page has no template; the message says where it was looked for.
    Empty(String),
    /// The template failed to compile or to render.
    Error(String),
    /// The compiled template could not be loaded: a server error.
    LoadFailed,
}

/// How rendering a compiled plugin template went.
#[derive(Debug)]
pub enum TemplateRender {
    Rendered(String),
    Failed(String),
    NotLoaded,
}

/// The text shown for a cbtml error.
pub open spec fn error_text(e: ErrorSpec) -> Seq<char> {
    format_error_spec(
        if e.is_compile {
            "编译错误"@
        } else {
            "语法错误"@
        },
        e.file,
        e.line,
        e.col,
        e.context,
        e.message,
        e.hint,
    )
}

/// The compiled template of page `slug` of `plugin`, from its source as
/// read from `template_path` (`None` where there is no such file), or what
/// the page shows instead: `None` where the compiler stops on the source.
pub fn plugin_page_template(
    plugin: &str,
    slug: &str,
    source: Option<String>,
    template_path: &str,
) -> (r: Option<Result<String, PluginPageView>>)
    requires
        source matches Some(s) ==> byte_len(s@) <= isize::MAX,
    ensures
        match source {
            None => r matches Some(Err(PluginPageView::Empty(m))) && m@ == "插件页面模板不存在："@
                + template_path@,
            Some(s) => match compile_spec(s@, plugin_template_label(plugin@, slug@)) {
                None => r is None,
                Some(Ok(c)) => r matches Some(Ok(t)) && t@ == c,
                Some(Err(e)) => r matches Some(Err(PluginPageView::Error(m))) && m@ == "CBTML 编译失败："@
                    + error_text(e),
            },
        },
{
    match source {
        None => {
            let mut m = "插件页面模板不存在：".to_owned();
            string_push_str(&mut m, template_path);
            Some(Err(PluginPageView::Empty(m)))
        },
        Some(s) => {
            let (_, _, label) = plugin_page_labels(plugin, slug);
            match try_compile(s.as_str(), label.as_str()) {
                None => None,
                Some(Ok(c)) => Some(Ok(c)),
                Some(Err(e)) => {
                    let mut m = "CBTML 编译失败：".to_owned();
                    let t = e.to_display_string();
                    push_all(&mut m, &t);
                    Some(Err(PluginPageView::Error(m)))
                },
            }
        },
    }
}

/// What a plugin page shows once its template was rendered.
pub fn plugin_page_view(render: TemplateRender) -> (r: PluginPageView)
    ensures
        match render {
            TemplateRender::Rendered(h) => r matches PluginPageView::Content(c) && c@ == h@,
            TemplateRender::Failed(e) => r matches PluginPageView::Error(m) && m@ == "模板渲染失败："@
                + e@,
            TemplateRender::NotLoaded => r is LoadFailed,
        },
{
    match render {
        TemplateRender::Rendered(h) => PluginPageView::Content(h),
        TemplateRender::Failed(e) => {
            let mut m = "模板渲染失败：".to_owned();
            push_all(&mut m, &e);
            PluginPageView::Error(m)
        },
        TemplateRender::NotLoaded => PluginPageView::LoadFailed,
    }
}

/// What a plugin page shows: the message of a missing template or of a
/// failed compile; otherwise the compiled template rendered with the JSON
/// `context` in an environment of its own that holds it as `page` with the
/// template filters (see `plugin_page_render`): the page, or the message of a
/// failed render, or a load failure exactly where MiniJinja refuses the
/// compiled text; `None` where the compiler stops on the source.
pub fn plugin_page_outcome(
    plugin: &str,
    slug: &str,
    source: Option<String>,
    template_path: &str,
    context: &str,
) -> (r: Option<PluginPageView>)
    requires
        source matches Some(s) ==> byte_len(s@) <= isize::MAX,
    ensures
        match source {
            None => r matches Some(PluginPageView::Empty(m)) && m@ == "插件页面模板不存在："@
                + template_path@,
            Some(s) => match compile_spec(s@, plugin_template_label(plugin@, slug@)) {
                None => r is None,
                Some(Err(e)) => r matches Some(PluginPageView::Error(m)) && m@ == "CBTML 编译失败："@
                    + error_text(e),
                Some(Ok(c)) => {
                    &&& r is Some
                    &&& (r matches Some(PluginPageView::LoadFailed)) <==> !jinja_accepts("page"@, c)
                    &&& r matches Some(PluginPageView::Content(h)) ==> exists|env: TemplateEnv|
                        page_env_ok(env, c) && #[trigger] env_rendered(env)[("page"@, context@)]
                            == Ok::<Seq<char>, Seq<char>>(h@)
                    &&& r matches Some(PluginPageView::Error(m)) ==> exists|env: TemplateEnv|
                        page_env_ok(env, c) && (#[trigger] env_rendered(env)[("page"@, context@)] matches Err(
                            x,
                        ) && m@ == "模板渲染失败："@ + x)
                    &&& !(r matches Some(PluginPageView::Empty(_)))
                },
            },
        },
{
    match plugin_page_template(plugin, slug, source, template_path) {
        None => None,
        Some(Err(v)) => Some(v),
        Some(Ok(c)) => {
            let rendered = plugin_page_render(c.as_str(), context);
            Some(plugin_page_view(rendered))
        },
    }
}

} // verus!
