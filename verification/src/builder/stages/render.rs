//! Rendering compiled templates with MiniJinja: the environment that holds
//! the templates and the template filters, what a page renders to, and the
//! file a page is written to.
use crate::admin::plugin_page::TemplateRender;
use crate::text::{chars_of, ends_with, push_all, string_of_range, string_push_str};
use vstd::prelude::*;

verus! {

#[verifier::external_type_specification]
#[verifier::external_body]
pub struct ExEnvironment<'a>(minijinja::Environment<'a>);

#[verifier::external_type_specification]
#[verifier::external_body]
pub struct ExValue(minijinja::Value);

/// A MiniJinja environment that owns its templates.
pub type TemplateEnv = minijinja::Environment<'static>;

/// The source of each template that a MiniJinja environment holds, by name.
pub uninterp spec fn env_templates(env: TemplateEnv) -> Map<Seq<char>, Seq<char>>;

/// The names of the filters that a MiniJinja environment holds (its filter
/// map's keys).
pub uninterp spec fn env_filters(env: TemplateEnv) -> Set<Seq<char>>;

/// The names of the global values, functions among them, that a MiniJinja
/// environment holds (its globals map's keys).
pub uninterp spec fn env_globals(env: TemplateEnv) -> Set<Seq<char>>;

/// Whether MiniJinja accepts `source` as a template named `name`: whether
/// `CompiledTemplate::new` parses it.  Only the environment's syntax could
/// change that, and it cannot be changed here (`set_syntax` needs a feature
/// this build leaves off).
pub uninterp spec fn jinja_accepts(name: Seq<char>, source: Seq<char>) -> bool;

/// The text of the error MiniJinja gives for `source` as a template named
/// `name` where it does not accept it.
pub uninterp spec fn jinja_error_of(name: Seq<char>, source: Seq<char>) -> Seq<char>;

/// What rendering each template of a MiniJinja environment, by name, gives
/// with the context that a JSON text holds: the page, or the text of the
/// error.
pub uninterp spec fn env_rendered(env: TemplateEnv) -> Map<(Seq<char>, Seq<char>), Result<Seq<char>, Seq<char>>>;

/// `minijinja::Environment::new()`: an environment that holds no template.
#[verifier::external_body]
fn env_new() -> (r: TemplateEnv)
    ensures
        env_templates(r).dom() == Set::<Seq<char>>::empty(),
{
    minijinja::Environment::new()
}

/// `Environment::add_filter`: the filter is held under its name (an insert
/// into the filter map); the templates and globals stay as they are.
#[verifier::external_body]
fn env_add_filter<F, Rv, Args>(env: &mut TemplateEnv, name: &'static str, f: F)
    where
        F: minijinja::functions::Function<Rv, Args>,
        Rv: minijinja::value::FunctionResult,
        Args: for<'a> minijinja::value::FunctionArgs<'a>,
    ensures
        env_templates(*final(env)) == env_templates(*old(env)),
        env_filters(*final(env)) == env_filters(*old(env)).insert(name@),
        env_globals(*final(env)) == env_globals(*old(env)),
{
    env.add_filter(name, f)
}

/// `Environment::add_function`: the function is held as a global under its
/// name (an insert into the globals map); the templates and filters stay as
/// they are.
#[verifier::external_body]
fn env_add_function<F, Rv, Args>(env: &mut TemplateEnv, name: &'static str, f: F)
    where
        F: minijinja::functions::Function<Rv, Args>,
        Rv: minijinja::value::FunctionResult,
        Args: for<'a> minijinja::value::FunctionArgs<'a>,
    ensures
        env_templates(*final(env)) == env_templates(*old(env)),
        env_filters(*final(env)) == env_filters(*old(env)),
        env_globals(*final(env)) == env_globals(*old(env)).insert(name@),
{
    env.add_function(name, f)
}

/// `Environment::add_template_owned`: it succeeds exactly where MiniJinja
/// accepts the source, and the template is then held under its name,
/// replacing any of the same name; otherwise the error's text.  Filters and
/// globals stay as they are.
#[verifier::external_body]
fn env_add_template(env: &mut TemplateEnv, name: String, source: String) -> (r: Result<(), String>)
    ensures
        r is Ok <==> jinja_accepts(name@, source@),
        r is Ok ==> env_templates(*final(env)) == env_templates(*old(env)).insert(name@, source@),
        r matches Err(e) ==> e@ == jinja_error_of(name@, source@),
        env_filters(*final(env)) == env_filters(*old(env)),
        env_globals(*final(env)) == env_globals(*old(env)),
{
    env.add_template_owned(name, source).map_err(|e| e.to_string())
}

/// `Environment::get_template(name)`, then `render` with the JSON text
/// `context` read by `serde_json`: `None` where the environment holds no
/// template of that name; else the page, or the text of the error (the
/// JSON's or the render's).  What a render gives is named, not written out.
#[verifier::external_body]
fn env_render(env: &TemplateEnv, name: &str, context: &str) -> (r: Option<Result<String, String>>)
    ensures
        r is None <==> !env_templates(*env).contains_key(name@),
        r matches Some(x) ==> env_rendered(*env)[(name@, context@)] == res_view(x),
{
    let tmpl = match env.get_template(name) {
        Ok(t) => t,
        Err(_) => return None,
    };
    match serde_json::from_str::<serde_json::Value>(context) {
        Ok(ctx) => Some(tmpl.render(ctx).map_err(|e| e.to_string())),
        Err(e) => Some(Err(e.to_string())),
    }
}

/// `minijinja::Value::is_true`: whether a template value counts as true.
#[verifier::external_body]
fn value_is_true(v: &minijinja::Value) -> bool {
    v.is_true()
}

/// A result of strings by its views.
pub open spec fn res_view(x: Result<String, String>) -> Result<Seq<char>, Seq<char>> {
    match x {
        Ok(s) => Ok(s@),
        Err(e) => Err(e@),
    }
}

/// Named templates by their views.
pub open spec fn pairs_view(v: Seq<(String, String)>) -> Seq<(Seq<char>, Seq<char>)> {
    v.map_values(|p: (String, String)| (p.0@, p.1@))
}

/// The templates `ts` by name: a later one replaces an earlier one of the
/// same name.
pub open spec fn template_map(ts: Seq<(Seq<char>, Seq<char>)>) -> Map<Seq<char>, Seq<char>>
    decreases ts.len(),
{
    if ts.len() == 0 {
        Map::empty()
    } else {
        template_map(ts.drop_last()).insert(ts.last().0, ts.last().1)
    }
}

/// The names of the template filters of cbtml.
pub open spec fn cbtml_filter_names() -> Set<Seq<char>> {
    set![
        "date"@,
        "iso"@,
        "slugify"@,
        "truncate"@,
        "wordcount"@,
        "reading_time"@,
        "reading_time_label"@,
        "tag_url"@,
        "category_url"@,
        "abs_url"@,
        "json"@,
        "active_class"@,
        "md5"@,
        "upper"@,
        "lower"@,
        "capitalize"@
    ]
}

/// The names of the filters registered for the site (`admin` false) or for
/// the admin area, which also has `format_datetime`.
pub open spec fn filter_names(admin: bool) -> Set<Seq<char>> {
    if admin {
        cbtml_filter_names().insert("format_datetime"@)
    } else {
        cbtml_filter_names()
    }
}

/// Registers the template filters of cbtml.  Each filter is the library's
/// own: those that take any value read it as text (`ToString`), as the
/// template engine does for a text argument; a word count or a date cut
/// that could not be done (more words than a `u32` holds, a date whose
/// nineteenth byte falls inside a character) gives `u32::MAX` or the text
/// unchanged.
fn register_filters(env: &mut TemplateEnv, admin: bool)
    ensures
        env_templates(*final(env)) == env_templates(*old(env)),
        env_filters(*final(env)) == env_filters(*old(env)).union(filter_names(admin)),
        env_globals(*final(env)) == if admin {
            env_globals(*old(env)).insert("svg_icon"@)
        } else {
            env_globals(*old(env))
        },
{
    let ghost f0 = env_filters(*env);
    env_add_filter(env, "date", |v: String, format: Option<String>| -> (r: String) { v });
    env_add_filter(env, "iso", |v: String| -> (r: String) { v });
    env_add_filter(env, "slugify", |v: String| -> (r: String) { crate::cbtml::filters::filter_slugify(v) });
    env_add_filter(
        env,
        "truncate",
        |v: String, length: Option<usize>| -> (r: String) { crate::cbtml::filters::filter_truncate(v, length) },
    );
    env_add_filter(
        env,
        "wordcount",
        |v: String| -> (r: u32)
            {
                let n = chars_of(v.as_str()).len();
                if n <= 0xFFFF_FFFF {
                    proof {
                        crate::content::markdown::lemma_word_count_le_len(v@);
                    }
                    crate::cbtml::filters::filter_wordcount(v)
                } else {
                    0xFFFF_FFFF
                }
            },
    );
    env_add_filter(
        env,
        "reading_time",
        |v: String| -> (r: u32) { crate::cbtml::filters::filter_reading_time(v.as_str()) },
    );
    env_add_filter(
        env,
        "reading_time_label",
        |m: u32| -> (r: String) { crate::cbtml::filters::filter_reading_time_label(m) },
    );
    env_add_filter(env, "tag_url", |v: String| -> (r: String) { crate::cbtml::filters::filter_tag_url(v) });
    env_add_filter(
        env,
        "category_url",
        |v: String| -> (r: String) { crate::cbtml::filters::filter_category_url(v) },
    );
    env_add_filter(env, "abs_url", |v: String| -> (r: String) { crate::cbtml::filters::filter_abs_url(v) });
    env_add_filter(env, "json", |v: String| -> (r: String) { v });
    env_add_filter(
        env,
        "active_class",
        |v: minijinja::Value| -> (r: String) { crate::cbtml::filters::filter_active_class(value_is_true(&v)) },
    );
    env_add_filter(env, "md5", |v: String| -> (r: String) { crate::cbtml::filters::filter_md5(v) });
    env_add_filter(env, "upper", |v: String| -> (r: String) { crate::cbtml::filters::filter_upper(v) });
    env_add_filter(env, "lower", |v: String| -> (r: String) { crate::cbtml::filters::filter_lower(v) });
    env_add_filter(
        env,
        "capitalize",
        |v: String| -> (r: String) { crate::cbtml::filters::filter_capitalize(v) },
    );
    if admin {
        env_add_filter(
            env,
            "format_datetime",
            |v: String| -> (r: String)
                {
                    if crate::admin::template::datetime_cut_ok_exec(v.as_str()) {
                        crate::admin::template::filter_format_datetime(v)
                    } else {
                        v
                    }
                },
        );
        env_add_function(env, "svg_icon", |v: String| -> (r: String) { crate::admin::template::fn_svg_icon(v) });
    }
    assert(env_filters(*env) =~= f0.union(filter_names(admin)));
}

/// Whether MiniJinja accepts the first `k` of the named templates `ts`.
pub open spec fn accepted_upto(ts: Seq<(String, String)>, k: int) -> bool {
    forall|j: int| 0 <= j < k ==> jinja_accepts((#[trigger] ts[j]).0@, ts[j].1@)
}

/// An environment holding `templates` (compiled cbtml), with the template
/// filters, and for the admin area also `format_datetime` and the
/// `svg_icon` function; it is made exactly when MiniJinja accepts every
/// template, else the first template refused is named with the error's
/// text.
pub fn template_environment(templates: &Vec<(String, String)>, admin: bool) -> (r: Result<
    TemplateEnv,
    (String, String),
>)
    ensures
        r is Ok <==> accepted_upto(templates@, templates.len() as int),
        r matches Ok(e) ==> env_templates(e) == template_map(pairs_view(templates@)),
        r matches Ok(e) ==> filter_names(admin).subset_of(env_filters(e)),
        r matches Ok(e) ==> (admin ==> env_globals(e).contains("svg_icon"@)),
        r matches Err((n, m)) ==> exists|i: int|
            0 <= i < templates.len() && accepted_upto(templates@, i) && !jinja_accepts(
                (#[trigger] templates@[i]).0@,
                templates@[i].1@,
            ) && n@ == templates@[i].0@ && m@ == jinja_error_of(templates@[i].0@, templates@[i].1@),
{
    let mut env = env_new();
    register_filters(&mut env, admin);
    assert(env_templates(env) =~= template_map(pairs_view(templates@).take(0)));
    let mut i: usize = 0;
    while i < templates.len()
        invariant
            i <= templates.len(),
            env_templates(env) == template_map(pairs_view(templates@).take(i as int)),
            filter_names(admin).subset_of(env_filters(env)),
            admin ==> env_globals(env).contains("svg_icon"@),
            accepted_upto(templates@, i as int),
        decreases templates.len() - i,
    {
        let name = templates[i].0.clone();
        let source = templates[i].1.clone();
        let ghost prefix = pairs_view(templates@).take(i + 1);
        proof {
            assert(prefix.drop_last() =~= pairs_view(templates@).take(i as int));
            assert(prefix.last() == (name@, source@));
        }
        match env_add_template(&mut env, name, source) {
            Ok(()) => {},
            Err(e) => {
                return Err((templates[i].0.clone(), e));
            },
        }
        i += 1;
    }
    assert(pairs_view(templates@).take(templates.len() as int) =~= pairs_view(templates@));
    Ok(env)
}

/// `s` without the `/` it starts with (all of them).
pub open spec fn trim_leading_slashes(s: Seq<char>) -> Seq<char>
    decreases s.len(),
{
    if s.len() > 0 && s[0] == '/' {
        trim_leading_slashes(s.skip(1))
    } else {
        s
    }
}

/// The file, under the output directory, that the page at `url` is written
/// to: a URL ending in `/` is a directory holding `index.html`.
pub open spec fn output_file_spec(url: Seq<char>) -> Seq<char> {
    if url.len() > 0 && url.last() == '/' {
        trim_leading_slashes(url) + "index.html"@
    } else {
        trim_leading_slashes(url)
    }
}

/// The file a page is written to (see `output_file_spec`).
pub fn output_file(url: &str) -> (r: String)
    ensures
        r@ == output_file_spec(url@),
{
    let v = chars_of(url);
    let mut i: usize = 0;
    assert(v@.skip(0) =~= v@);
    while i < v.len() && v[i] == '/'
        invariant
            i <= v.len(),
            v@ == url@,
            trim_leading_slashes(v@.skip(i as int)) == trim_leading_slashes(v@),
        decreases v.len() - i,
    {
        assert(v@.skip(i as int).skip(1) =~= v@.skip(i + 1));
        i += 1;
    }
    let mut out = string_of_range(&v, i, v.len());
    assert(v@.subrange(i as int, v.len() as int) =~= v@.skip(i as int));
    if v.len() > 0 && v[v.len() - 1] == '/' {
        string_push_str(&mut out, "index.html");
    }
    out
}

/// The name of the template a page names: its name and `.cbtml`.
pub open spec fn page_template_name(template: Seq<char>) -> Seq<char> {
    template + ".cbtml"@
}

/// What rendering the page at `url` with `template` and the JSON `context`
/// comes to: `None` where the environment has no such template (the page is
/// skipped); else the file to write and the HTML, or the message of the
/// failed render.
pub open spec fn page_render_spec(
    env: TemplateEnv,
    url: Seq<char>,
    template: Seq<char>,
    context: Seq<char>,
) -> Option<Result<(Seq<char>, Seq<char>), Seq<char>>> {
    let name = page_template_name(template);
    if !env_templates(env).contains_key(name) {
        None
    } else {
        match env_rendered(env)[(name, context)] {
            Ok(html) => Some(Ok((output_file_spec(url), html))),
            Err(e) => Some(Err("渲染页面 "@ + url + " 失败（模板："@ + name + "）：\n"@ + e)),
        }
    }
}

/// Renders one page of the site (see `page_render_spec`).
pub fn render_page(env: &TemplateEnv, url: &str, template: &str, context: &str) -> (r: Option<
    Result<(String, String), String>,
>)
    ensures
        page_render_spec(*env, url@, template@, context@) == match r {
            None => None,
            Some(Ok((f, h))) => Some(Ok((f@, h@))),
            Some(Err(m)) => Some(Err(m@)),
        },
{
    let mut name = template.to_owned();
    string_push_str(&mut name, ".cbtml");
    match env_render(env, name.as_str(), context) {
        None => None,
        Some(Ok(html)) => Some(Ok((output_file(url), html))),
        Some(Err(e)) => {
            let mut m = "渲染页面 ".to_owned();
            string_push_str(&mut m, url);
            string_push_str(&mut m, " 失败（模板：");
            push_all(&mut m, &name);
            string_push_str(&mut m, "）：\n");
            push_all(&mut m, &e);
            Some(Err(m))
        },
    }
}

/// What rendering admin template `name` with the JSON `context` comes to:
/// the page, or the message of a missing template or a failed render.
pub open spec fn admin_render_spec(env: TemplateEnv, name: Seq<char>, context: Seq<char>) -> Result<
    Seq<char>,
    Seq<char>,
> {
    if !env_templates(env).contains_key(name) {
        Err("后台模板 "@ + name + " 不存在"@)
    } else {
        match env_rendered(env)[(name, context)] {
            Ok(html) => Ok(html),
            Err(_) => Err("渲染后台模板 "@ + name + " 失败"@),
        }
    }
}

/// Renders an admin page (see `admin_render_spec`).
pub fn render_admin(env: &TemplateEnv, name: &str, context: &str) -> (r: Result<String, String>)
    ensures
        res_view(r) == admin_render_spec(*env, name@, context@),
{
    match env_render(env, name, context) {
        None => {
            let mut m = "后台模板 ".to_owned();
            string_push_str(&mut m, name);
            string_push_str(&mut m, " 不存在");
            Err(m)
        },
        Some(Ok(html)) => Ok(html),
        Some(Err(_)) => {
            let mut m = "渲染后台模板 ".to_owned();
            string_push_str(&mut m, name);
            string_push_str(&mut m, " 失败");
            Err(m)
        },
    }
}

/// Whether `e` is the environment of a plugin page: it holds `compiled` as
/// its one template `page`, and the template filters of cbtml.
pub open spec fn page_env_ok(e: TemplateEnv, compiled: Seq<char>) -> bool {
    &&& env_templates(e) == template_map(seq![("page"@, compiled)])
    &&& filter_names(false).subset_of(env_filters(e))
}

/// Renders the compiled template of a plugin's admin page with the JSON
/// `context`, in an environment of its own that holds it as `page` with the
/// template filters: the page or the render's error, as that environment
/// renders them; not loaded exactly where MiniJinja does not accept the
/// template.
pub fn plugin_page_render(compiled: &str, context: &str) -> (r: TemplateRender)
    ensures
        r is NotLoaded <==> !jinja_accepts("page"@, compiled@),
        r matches TemplateRender::Rendered(h) ==> exists|e: TemplateEnv|
            page_env_ok(e, compiled@) && #[trigger] env_rendered(e)[("page"@, context@)] == Ok::<
                Seq<char>,
                Seq<char>,
            >(h@),
        r matches TemplateRender::Failed(m) ==> exists|e: TemplateEnv|
            page_env_ok(e, compiled@) && #[trigger] env_rendered(e)[("page"@, context@)] == Err::<
                Seq<char>,
                Seq<char>,
            >(m@),
{
    let mut ts: Vec<(String, String)> = Vec::new();
    ts.push(("page".to_owned(), compiled.to_owned()));
    assert(ts@[0].0@ == "page"@ && ts@[0].1@ == compiled@);
    let env = match template_environment(&ts, false) {
        Ok(e) => e,
        Err(_) => {
            return TemplateRender::NotLoaded;
        },
    };
    proof {
        assert(pairs_view(ts@) =~= seq![("page"@, compiled@)]);
        assert(template_map(seq![("page"@, compiled@)]).contains_key("page"@));
    }
    match env_render(&env, "page", context) {
        None => TemplateRender::NotLoaded,
        Some(Ok(h)) => TemplateRender::Rendered(h),
        Some(Err(e)) => TemplateRender::Failed(e),
    }
}

/// Compiled theme templates (theme, name, compiled text) by their views.
pub open spec fn triples_view(v: Seq<(String, String, String)>) -> Seq<(Seq<char>, Seq<char>, Seq<char>)> {
    v.map_values(|t: (String, String, String)| (t.0@, t.1@, t.2@))
}

/// The names the compiled templates `ts` of all themes are held under, in
/// order: `theme/name` for each, so that one theme can build on another, and
/// the bare name as well for the templates of the `active` theme.
pub open spec fn theme_entries(ts: Seq<(Seq<char>, Seq<char>, Seq<char>)>, active: Seq<char>) -> Seq<
    (Seq<char>, Seq<char>),
>
    decreases ts.len(),
{
    if ts.len() == 0 {
        Seq::empty()
    } else {
        let p = theme_entries(ts.drop_last(), active);
        let t = ts.last();
        let q = p.push((t.0 + "/"@ + t.1, t.2));
        if t.0 == active {
            q.push((t.1, t.2))
        } else {
            q
        }
    }
}

/// The named templates for the site's environment (see `theme_entries`).
pub fn theme_template_entries(ts: &Vec<(String, String, String)>, active: &str) -> (r: Vec<(String, String)>)
    ensures
        pairs_view(r@) == theme_entries(triples_view(ts@), active@),
{
    let mut out: Vec<(String, String)> = Vec::new();
    let mut i: usize = 0;
    assert(pairs_view(out@) =~= theme_entries(triples_view(ts@).take(0), active@));
    while i < ts.len()
        invariant
            i <= ts.len(),
            pairs_view(out@) == theme_entries(triples_view(ts@).take(i as int), active@),
        decreases ts.len() - i,
    {
        let ghost prefix = triples_view(ts@).take(i + 1);
        let ghost before = pairs_view(out@);
        proof {
            assert(prefix.drop_last() =~= triples_view(ts@).take(i as int));
            assert(prefix.last() == (ts@[i as int].0@, ts@[i as int].1@, ts@[i as int].2@));
        }
        let mut full = ts[i].0.clone();
        string_push_str(&mut full, "/");
        push_all(&mut full, &ts[i].1);
        out.push((full, ts[i].2.clone()));
        if crate::builder::keyed::str_eq(ts[i].0.as_str(), active) {
            out.push((ts[i].1.clone(), ts[i].2.clone()));
        }
        assert(pairs_view(out@) =~= theme_entries(prefix, active@));
        i += 1;
    }
    assert(triples_view(ts@).take(ts.len() as int) =~= triples_view(ts@));
    out
}

} // verus!
