use cblog::admin::plugins::{enabled_line, rewrite_plugins_config, toggle_enabled, toggle_plugin_config};
use cblog::plugin::registry::{version_lt, PluginDependencies};
use cblog::plugin::scheduler::{resolve_load_order, LoadOrderError};

fn deps(after: &[&str], conflicts: &[&str]) -> PluginDependencies {
    PluginDependencies {
        after: after.iter().map(|s| s.to_string()).collect(),
        conflicts: conflicts.iter().map(|s| s.to_string()).collect(),
    }
}

fn plugin(name: &str, after: &[&str], conflicts: &[&str]) -> (String, PluginDependencies) {
    (name.to_string(), deps(after, conflicts))
}

#[test]
fn version_comparison() {
    assert!(version_lt("1.0.0", "1.0.1"));
    assert!(version_lt("1.2", "1.10"));
    assert!(!version_lt("1.10", "1.2"));
    assert!(!version_lt("1.0", "1.0.0"));
    assert!(!version_lt("1.0.0", "1.0"));
    assert!(version_lt("1.0", "1.0.1"));
    assert!(!version_lt("2.0.0", "2.0.0"));
    assert!(version_lt("1.x", "1.1"));
    assert!(!version_lt("", ""));
    assert!(version_lt("0.9.9", "1"));
}

#[test]
fn version_lt_is_irreflexive_and_asymmetric_on_samples() {
    let vs = ["0", "1", "1.0", "1.0.1", "1.2", "1.10", "2", "a.b", "3.0.0.1"];
    for a in vs {
        assert!(!version_lt(a, a));
        for b in vs {
            assert!(!(version_lt(a, b) && version_lt(b, a)));
        }
    }
}

#[test]
fn empty_plugin_list_loads_nothing() {
    assert_eq!(resolve_load_order(&Vec::new()).unwrap(), Vec::<String>::new());
}

#[test]
fn plugins_without_dependencies_load_in_name_order() {
    let ps = vec![plugin("seo", &[], &[]), plugin("analytics", &[], &[]), plugin("comments", &[], &[])];
    assert_eq!(resolve_load_order(&ps).unwrap(), vec!["analytics", "comments", "seo"]);
}

#[test]
fn after_dependencies_come_first() {
    let ps = vec![
        plugin("a", &["c"], &[]),
        plugin("b", &[], &[]),
        plugin("c", &["b", "missing"], &[]),
        plugin("d", &[], &[]),
    ];
    assert_eq!(resolve_load_order(&ps).unwrap(), vec!["b", "d", "c", "a"]);
}

#[test]
fn conflicts_are_refused() {
    let ps = vec![plugin("a", &[], &["b"]), plugin("b", &[], &[])];
    match resolve_load_order(&ps) {
        Err(LoadOrderError::Conflict { plugin, other }) => {
            assert_eq!(plugin, "a");
            assert_eq!(other, "b");
        }
        other => panic!("unexpected {other:?}"),
    }
    let ok = vec![plugin("a", &[], &["zzz"]), plugin("b", &[], &[])];
    assert!(resolve_load_order(&ok).is_ok());
}

#[test]
fn cycles_are_refused() {
    let ps = vec![plugin("a", &["b"], &[]), plugin("b", &["a"], &[])];
    assert!(matches!(resolve_load_order(&ps), Err(LoadOrderError::Cycle)));
    let selfdep = vec![plugin("a", &["a"], &[])];
    assert!(matches!(resolve_load_order(&selfdep), Err(LoadOrderError::Cycle)));
    let dup = vec![plugin("a", &[], &[]), plugin("a", &[], &[])];
    assert!(matches!(resolve_load_order(&dup), Err(LoadOrderError::Cycle)));
}

#[test]
fn load_order_error_messages() {
    let e = LoadOrderError::Conflict { plugin: "a".into(), other: "b".into() };
    assert_eq!(e.to_message(), "插件 a 与 b 存在冲突，不能同时启用");
    assert_eq!(LoadOrderError::Cycle.to_message(), "插件依赖存在循环：无法确定加载顺序");
}

fn names(v: &[&str]) -> Vec<String> {
    v.iter().map(|s| s.to_string()).collect()
}

#[test]
fn toggling_adds_and_removes() {
    assert_eq!(toggle_enabled(&names(&["a", "b"]), "c"), names(&["a", "b", "c"]));
    assert_eq!(toggle_enabled(&names(&["a", "b", "c"]), "b"), names(&["a", "c"]));
    let once = toggle_enabled(&names(&["a"]), "z");
    assert_eq!(toggle_enabled(&once, "z"), names(&["a"]));
}

#[test]
fn enabled_line_lists_quoted_names() {
    assert_eq!(enabled_line(&Vec::new()), "enabled = []");
    assert_eq!(enabled_line(&names(&["seo", "toc"])), "enabled = [\"seo\", \"toc\"]");
}

#[test]
fn config_rewrite_replaces_enabled_in_plugins_section() {
    let content = "[site]\ntitle = \"x\"\nenabled = true\n\n[plugins]\n  enabled = [\"a\"]\nother = 1\n";
    assert_eq!(
        rewrite_plugins_config(content, "enabled = []"),
        "[site]\ntitle = \"x\"\nenabled = true\n\n[plugins]\nenabled = []\nother = 1\n"
    );
    let no_newline = "[plugins]\r\nenabled = [\"a\"]";
    assert_eq!(rewrite_plugins_config(no_newline, "enabled = [\"b\"]"), "[plugins]\nenabled = [\"b\"]");
}

#[test]
fn config_rewrite_appends_when_missing() {
    assert_eq!(
        rewrite_plugins_config("[site]\ntitle = \"x\"", "enabled = [\"a\"]"),
        "[site]\ntitle = \"x\"\n\n[plugins]\nenabled = [\"a\"]\n"
    );
    assert_eq!(
        rewrite_plugins_config("[plugins]\nother = 1\n", "enabled = [\"a\"]"),
        "[plugins]\nother = 1\nenabled = [\"a\"]\n"
    );
    let (text, list) = toggle_plugin_config("[plugins]\nenabled = [\"a\"]\n", &names(&["a"]), "b");
    assert_eq!(list, names(&["a", "b"]));
    assert_eq!(text, "[plugins]\nenabled = [\"a\", \"b\"]\n");
}
