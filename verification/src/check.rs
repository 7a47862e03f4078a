//! Project integrity checks: configuration, theme, plugins and content
//! directories.  What the file system holds is gathered first; the verdict
//! is computed from it here.
use crate::text::{push_all, string_push_str};
use vstd::prelude::*;

verus! {

/// The errors and warnings found in a project.
#[derive(Debug)]
pub struct CheckResult {
    pub errors: Vec<String>,
    pub warnings: Vec<String>,
}

/// What exists of the active theme.
#[derive(Debug)]
pub struct ThemeFacts {
    pub dir_exists: bool,
    pub theme_toml_exists: bool,
    pub templates_dir_exists: bool,
    pub base_html_exists: bool,
    pub base_cbtml_exists: bool,
    pub assets_dir_exists: bool,
}

/// What exists of an enabled plugin.
#[derive(Debug)]
pub struct PluginFacts {
    pub name: String,
    pub dir_exists: bool,
    pub toml_exists: bool,
    /// The error of reading its `plugin.toml`, when that failed.
    pub toml_error: Option<String>,
    pub main_lua_exists: bool,
}

/// The state of `cblog.toml`.
#[derive(Debug)]
pub enum ConfigFacts {
    Missing,
    /// It exists but could not be loaded.
    Invalid { error: String },
    /// It loaded; the active theme and the enabled plugins are known.
    Loaded { active_theme: String, theme: ThemeFacts, plugins: Vec<PluginFacts> },
}

/// What the checks look at.
#[derive(Debug)]
pub struct ProjectFacts {
    pub config: ConfigFacts,
    pub posts_dir_exists: bool,
    pub pages_dir_exists: bool,
}

/// `x` when `cond`, nothing otherwise.
pub open spec fn when(cond: bool, x: Seq<char>) -> Seq<Seq<char>> {
    if cond {
        seq![x]
    } else {
        Seq::empty()
    }
}

/// The errors about the theme `active`.
pub open spec fn theme_errors(active: Seq<char>, t: ThemeFacts) -> Seq<Seq<char>> {
    if !t.dir_exists {
        seq!["主题目录 themes/"@ + active + "/ 不存在"@]
    } else {
        when(!t.theme_toml_exists, "主题 "@ + active + " 缺少 theme.toml"@) + if !t.templates_dir_exists {
            seq!["主题 "@ + active + " 缺少 templates/ 目录"@]
        } else {
            when(
                !(t.base_html_exists || t.base_cbtml_exists),
                "主题 "@ + active + " 缺少必需模板 base.html 或 base.cbtml"@,
            )
        }
    }
}

/// The warnings about the theme `active`.
pub open spec fn theme_warnings(active: Seq<char>, t: ThemeFacts) -> Seq<Seq<char>> {
    if !t.dir_exists {
        Seq::empty()
    } else {
        when(!t.assets_dir_exists, "主题 "@ + active + " 缺少 assets/ 目录"@)
    }
}

/// The errors about one plugin.
pub open spec fn plugin_errors(p: PluginFacts) -> Seq<Seq<char>> {
    let name = p.name@;
    if !p.dir_exists {
        seq!["插件目录 plugins/"@ + name + "/ 不存在"@]
    } else {
        (if !p.toml_exists {
            seq!["插件 "@ + name + " 缺少 plugin.toml"@]
        } else {
            match p.toml_error {
                Some(e) => seq!["插件 "@ + name + " 的 plugin.toml 解析失败: "@ + e@],
                None => Seq::empty(),
            }
        }) + when(!p.main_lua_exists, "插件 "@ + name + " 缺少 main.lua"@)
    }
}

/// The errors about a list of plugins, in order.
pub open spec fn plugins_errors(ps: Seq<PluginFacts>) -> Seq<Seq<char>>
    decreases ps.len(),
{
    if ps.len() == 0 {
        Seq::empty()
    } else {
        plugins_errors(ps.drop_last()) + plugin_errors(ps.last())
    }
}

/// All errors: configuration, then theme, then plugins.
pub open spec fn check_errors(f: ProjectFacts) -> Seq<Seq<char>> {
    match f.config {
        ConfigFacts::Missing => seq!["缺少 cblog.toml 配置文件"@],
        ConfigFacts::Invalid { error } => seq!["cblog.toml 解析失败: "@ + error@],
        ConfigFacts::Loaded { active_theme, theme, plugins } => theme_errors(active_theme@, theme)
            + plugins_errors(plugins@),
    }
}

/// All warnings: theme, then content directories.
pub open spec fn check_warnings(f: ProjectFacts) -> Seq<Seq<char>> {
    (match f.config {
        ConfigFacts::Loaded { active_theme, theme, plugins } => theme_warnings(active_theme@, theme),
        _ => Seq::empty(),
    }) + when(!f.posts_dir_exists, "content/posts/ 目录不存在"@) + when(
        !f.pages_dir_exists,
        "content/pages/ 目录不存在"@,
    )
}

/// `a + b + c` as a new string.
fn join3(a: &str, b: &str, c: &str) -> (r: String)
    ensures
        r@ == a@ + b@ + c@,
{
    let mut s = a.to_owned();
    string_push_str(&mut s, b);
    string_push_str(&mut s, c);
    s
}

/// Appends the theme's errors and warnings.
fn check_theme(active: &str, t: &ThemeFacts, errors: &mut Vec<String>, warnings: &mut Vec<String>)
    ensures
        final(errors).deep_view() == old(errors).deep_view() + theme_errors(active@, *t),
        final(warnings).deep_view() == old(warnings).deep_view() + theme_warnings(active@, *t),
{
    let ghost e0 = errors.deep_view();
    let ghost w0 = warnings.deep_view();
    if !t.dir_exists {
        errors.push(join3("主题目录 themes/", active, "/ 不存在"));
        assert(errors.deep_view() =~= e0 + theme_errors(active@, *t));
        assert(warnings.deep_view() =~= w0 + theme_warnings(active@, *t));
        return;
    }
    if !t.theme_toml_exists {
        errors.push(join3("主题 ", active, " 缺少 theme.toml"));
    }
    let ghost e1 = errors.deep_view();
    assert(e1 =~= e0 + when(!t.theme_toml_exists, "主题 "@ + active@ + " 缺少 theme.toml"@));
    if !t.templates_dir_exists {
        errors.push(join3("主题 ", active, " 缺少 templates/ 目录"));
    } else if !(t.base_html_exists || t.base_cbtml_exists) {
        errors.push(join3("主题 ", active, " 缺少必需模板 base.html 或 base.cbtml"));
    }
    assert(errors.deep_view() =~= e0 + theme_errors(active@, *t));
    if !t.assets_dir_exists {
        warnings.push(join3("主题 ", active, " 缺少 assets/ 目录"));
    }
    assert(warnings.deep_view() =~= w0 + theme_warnings(active@, *t));
}

/// Appends one plugin's errors.
fn check_plugin(p: &PluginFacts, errors: &mut Vec<String>)
    ensures
        final(errors).deep_view() == old(errors).deep_view() + plugin_errors(*p),
{
    let ghost e0 = errors.deep_view();
    let name = p.name.as_str();
    if !p.dir_exists {
        errors.push(join3("插件目录 plugins/", name, "/ 不存在"));
        assert(errors.deep_view() =~= e0 + plugin_errors(*p));
        return;
    }
    if !p.toml_exists {
        errors.push(join3("插件 ", name, " 缺少 plugin.toml"));
    } else {
        match &p.toml_error {
            Some(e) => {
                let mut m = join3("插件 ", name, " 的 plugin.toml 解析失败: ");
                push_all(&mut m, e);
                errors.push(m);
            },
            None => {},
        }
    }
    let ghost e1 = errors.deep_view();
    if !p.main_lua_exists {
        errors.push(join3("插件 ", name, " 缺少 main.lua"));
    }
    assert(errors.deep_view() =~= e0 + plugin_errors(*p));
}

/// Appends the errors of every enabled plugin, in order.
fn check_plugins(plugins: &Vec<PluginFacts>, errors: &mut Vec<String>)
    ensures
        final(errors).deep_view() == old(errors).deep_view() + plugins_errors(plugins@),
{
    let ghost e0 = errors.deep_view();
    let mut i: usize = 0;
    assert(e0 + plugins_errors(plugins@.take(0)) =~= e0);
    while i < plugins.len()
        invariant
            i <= plugins.len(),
            errors.deep_view() == e0 + plugins_errors(plugins@.take(i as int)),
        decreases plugins.len() - i,
    {
        check_plugin(&plugins[i], errors);
        assert(plugins@.take(i + 1).drop_last() == plugins@.take(i as int));
        assert(errors.deep_view() =~= e0 + plugins_errors(plugins@.take(i + 1)));
        i += 1;
    }
    assert(plugins@.take(plugins.len() as int) == plugins@);
}

/// Appends the warnings about missing content directories.
fn check_content(posts_dir_exists: bool, pages_dir_exists: bool, warnings: &mut Vec<String>)
    ensures
        final(warnings).deep_view() == old(warnings).deep_view() + when(!posts_dir_exists, "content/posts/ 目录不存在"@)
            + when(!pages_dir_exists, "content/pages/ 目录不存在"@),
{
    let ghost w0 = warnings.deep_view();
    if !posts_dir_exists {
        warnings.push("content/posts/ 目录不存在".to_owned());
    }
    let ghost w1 = warnings.deep_view();
    assert(w1 =~= w0 + when(!posts_dir_exists, "content/posts/ 目录不存在"@));
    if !pages_dir_exists {
        warnings.push("content/pages/ 目录不存在".to_owned());
    }
    assert(warnings.deep_view() =~= w1 + when(!pages_dir_exists, "content/pages/ 目录不存在"@));
}

/// Checks a project from the facts gathered about it.
pub fn run(facts: &ProjectFacts) -> (r: CheckResult)
    ensures
        r.errors.deep_view() == check_errors(*facts),
        r.warnings.deep_view() == check_warnings(*facts),
{
    let mut errors: Vec<String> = Vec::new();
    let mut warnings: Vec<String> = Vec::new();
    match &facts.config {
        ConfigFacts::Missing => {
            errors.push("缺少 cblog.toml 配置文件".to_owned());
        },
        ConfigFacts::Invalid { error } => {
            let mut m = "cblog.toml 解析失败: ".to_owned();
            push_all(&mut m, error);
            errors.push(m);
        },
        ConfigFacts::Loaded { active_theme, theme, plugins } => {
            check_theme(active_theme.as_str(), theme, &mut errors, &mut warnings);
            check_plugins(plugins, &mut errors);
        },
    }
    assert(errors.deep_view() =~= check_errors(*facts));
    check_content(facts.posts_dir_exists, facts.pages_dir_exists, &mut warnings);
    assert(warnings.deep_view() =~= check_warnings(*facts));
    CheckResult { errors, warnings }
}

/// Whether everything the checks look for is present and readable.
pub open spec fn project_complete(f: ProjectFacts) -> bool {
    &&& f.posts_dir_exists
    &&& f.pages_dir_exists
    &&& match f.config {
        ConfigFacts::Loaded { active_theme, theme, plugins } => {
            &&& theme.dir_exists && theme.theme_toml_exists && theme.templates_dir_exists
            &&& (theme.base_html_exists || theme.base_cbtml_exists)
            &&& theme.assets_dir_exists
            &&& forall|i: int|
                0 <= i < plugins@.len() ==> {
                    let p = #[trigger] plugins@[i];
                    p.dir_exists && p.toml_exists && p.toml_error is None && p.main_lua_exists
                }
        },
        _ => false,
    }
}

proof fn lemma_plugins_ok(ps: Seq<PluginFacts>)
    requires
        forall|i: int|
            0 <= i < ps.len() ==> {
                let p = #[trigger] ps[i];
                p.dir_exists && p.toml_exists && p.toml_error is None && p.main_lua_exists
            },
    ensures
        plugins_errors(ps) == Seq::<Seq<char>>::empty(),
    decreases ps.len(),
{
    if ps.len() > 0 {
        let q = ps.drop_last();
        assert forall|i: int| 0 <= i < q.len() implies {
            let p = #[trigger] q[i];
            p.dir_exists && p.toml_exists && p.toml_error is None && p.main_lua_exists
        } by {
            assert(q[i] == ps[i]);
        }
        lemma_plugins_ok(q);
        let l = ps[ps.len() - 1];
        assert(l.dir_exists && l.toml_exists && l.toml_error is None && l.main_lua_exists);
        assert(plugin_errors(l) =~= Seq::<Seq<char>>::empty());
        assert(plugins_errors(ps) =~= Seq::<Seq<char>>::empty());
    }
}

/// A complete project passes the check with neither errors nor warnings.
pub proof fn law_complete_project_is_clean(f: ProjectFacts)
    requires
        project_complete(f),
    ensures
        check_errors(f) == Seq::<Seq<char>>::empty(),
        check_warnings(f) == Seq::<Seq<char>>::empty(),
{
    match f.config {
        ConfigFacts::Loaded { active_theme, theme, plugins } => {
            lemma_plugins_ok(plugins@);
            assert(theme_errors(active_theme@, theme) =~= Seq::<Seq<char>>::empty());
            assert(check_errors(f) =~= Seq::<Seq<char>>::empty());
            assert(check_warnings(f) =~= Seq::<Seq<char>>::empty());
        },
        _ => {},
    }
}

/// A project without `cblog.toml`, or with one that does not load, fails
/// the check.
pub proof fn law_config_problem_is_an_error(f: ProjectFacts)
    requires
        !(f.config is Loaded),
    ensures
        check_errors(f).len() > 0,
{
}

} // verus!
