//! Turning a plugin on or off: the enabled list changes, and the
//! `enabled = [...]` line of the `[plugins]` section of `cblog.toml` is
//! rewritten (or added) to match.
use crate::text::{
    chars_of, contains, ends_with, ends_with_at, find_exec, join_seq, join_strings, line_bounds,
    lines, push_all, ranges_view, starts_with, starts_with_at, string_of_range, string_push_str,
    trim,
};
use vstd::prelude::*;

verus! {

/// The position of the first `n` in `s`.
pub open spec fn first_index(s: Seq<Seq<char>>, n: Seq<char>) -> Option<int>
    decreases s.len(),
{
    if s.len() == 0 {
        None
    } else {
        match first_index(s.drop_last(), n) {
            Some(k) => Some(k),
            None => if s.last() == n {
                Some(s.len() - 1)
            } else {
                None
            },
        }
    }
}

/// The enabled list after toggling `n`: its first occurrence removed if it
/// is there, otherwise `n` added at the end.
pub open spec fn toggled(s: Seq<Seq<char>>, n: Seq<char>) -> Seq<Seq<char>> {
    match first_index(s, n) {
        Some(k) => s.remove(k),
        None => s.push(n),
    }
}

proof fn lemma_first_index(s: Seq<Seq<char>>, n: Seq<char>)
    ensures
        match first_index(s, n) {
            Some(k) => 0 <= k < s.len() && s[k] == n && forall|j: int| 0 <= j < k ==> #[trigger] s[j] != n,
            None => !s.contains(n),
        },
    decreases s.len(),
{
    if s.len() > 0 {
        let d = s.drop_last();
        lemma_first_index(d, n);
        match first_index(d, n) {
            Some(k) => {
                assert(s[k] == d[k]);
                assert forall|j: int| 0 <= j < k implies #[trigger] s[j] != n by {
                    assert(s[j] == d[j]);
                }
            },
            None => {
                assert forall|j: int| 0 <= j < d.len() implies #[trigger] s[j] != n by {
                    assert(s[j] == d[j]);
                    if d[j] == n {
                        assert(d.contains(n));
                    }
                }
                if s.last() != n {
                    assert forall|j: int| 0 <= j < s.len() implies s[j] != n by {
                        if j < d.len() {
                            assert(s[j] == d[j]);
                        }
                    }
                }
            },
        }
    }
}

/// Toggles `name` in the enabled list (see `toggled`).
pub fn toggle_enabled(enabled: &Vec<String>, name: &str) -> (r: Vec<String>)
    ensures
        r.deep_view() == toggled(enabled.deep_view(), name@),
{
    let ghost s = enabled.deep_view();
    proof {
        lemma_first_index(s, name@);
    }
    let mut pos: usize = 0;
    let mut found = false;
    while pos < enabled.len() && !found
        invariant
            pos <= enabled.len(),
            s == enabled.deep_view(),
            found ==> pos < enabled.len() && s[pos as int] == name@,
            forall|j: int| 0 <= j < pos ==> #[trigger] s[j] != name@,
        decreases enabled.len() - pos + if found { 0int } else { 1int },
    {
        if crate::builder::keyed::str_eq(enabled[pos].as_str(), name) {
            found = true;
        } else {
            pos += 1;
        }
    }
    let mut out = crate::builder::graph::clone_strings(enabled);
    if found {
        assert(first_index(s, name@) == Some(pos as int));
        out.remove(pos);
        assert(out.deep_view() =~= s.remove(pos as int));
    } else {
        assert(forall|j: int| 0 <= j < s.len() ==> #[trigger] s[j] != name@);
        assert(!s.contains(name@));
        out.push(name.to_owned());
        assert(out.deep_view() =~= s.push(name@));
    }
    out
}

/// `n` in double quotes.
pub open spec fn quoted(n: Seq<char>) -> Seq<char> {
    "\""@ + n + "\""@
}

/// The `enabled = [...]` line for a list of plugin names.
pub open spec fn enabled_line_spec(s: Seq<Seq<char>>) -> Seq<char> {
    if s.len() == 0 {
        "enabled = []"@
    } else {
        "enabled = ["@ + join_seq(s.map_values(|n: Seq<char>| quoted(n)), ", "@) + "]"@
    }
}

/// The `enabled = [...]` line for `enabled`.
pub fn enabled_line(enabled: &Vec<String>) -> (r: String)
    ensures
        r@ == enabled_line_spec(enabled.deep_view()),
{
    if enabled.len() == 0 {
        return "enabled = []".to_owned();
    }
    let ghost s = enabled.deep_view();
    let mut items: Vec<String> = Vec::new();
    let mut i: usize = 0;
    while i < enabled.len()
        invariant
            i <= enabled.len(),
            s == enabled.deep_view(),
            items.deep_view() == s.take(i as int).map_values(|n: Seq<char>| quoted(n)),
        decreases enabled.len() - i,
    {
        let mut q = "\"".to_owned();
        push_all(&mut q, &enabled[i]);
        string_push_str(&mut q, "\"");
        let ghost before = items.deep_view();
        items.push(q);
        assert(items.deep_view() =~= before.push(quoted(s[i as int])));
        assert(s.take(i + 1).map_values(|n: Seq<char>| quoted(n)) =~= s.take(i as int).map_values(
            |n: Seq<char>| quoted(n),
        ).push(quoted(s[i as int])));
        i += 1;
    }
    assert(s.take(enabled.len() as int) =~= s);
    let mut r = "enabled = [".to_owned();
    let joined = join_strings(&items, ", ");
    push_all(&mut r, &joined);
    string_push_str(&mut r, "]");
    r
}

/// Whether a trimmed line opens a section.
pub open spec fn opens_section(t: Seq<char>) -> bool {
    t.len() > 0 && t[0] == '['
}

/// Whether a trimmed line sets `enabled`: it starts with `enabled` and holds
/// an `=`.
pub open spec fn sets_enabled(t: Seq<char>) -> bool {
    starts_with(t, "enabled"@) && exists|i: int| 0 <= i < t.len() && t[i] == '='
}

/// The lines after the rewrite, whether the last line lies in the
/// `[plugins]` section, and whether the `enabled` line was replaced: the
/// first line setting `enabled` inside `[plugins]` becomes `new_line`.
pub open spec fn rewrite_lines(ls: Seq<Seq<char>>, new_line: Seq<char>) -> (Seq<Seq<char>>, bool, bool)
    decreases ls.len(),
{
    if ls.len() == 0 {
        (Seq::empty(), false, false)
    } else {
        let (out, in_section, replaced) = rewrite_lines(ls.drop_last(), new_line);
        let t = trim(ls.last());
        let in_now = if opens_section(t) {
            t == "[plugins]"@
        } else {
            in_section
        };
        if in_now && !replaced && sets_enabled(t) {
            (out.push(new_line), in_now, true)
        } else {
            (out.push(ls.last()), in_now, replaced)
        }
    }
}

/// `cblog.toml` with its `enabled` line of `[plugins]` replaced by
/// `new_line`, keeping a final newline; where there is none, `new_line` is
/// appended, under a new `[plugins]` header if the file has none.
pub open spec fn rewrite_config_spec(content: Seq<char>, new_line: Seq<char>) -> Seq<char> {
    let (out, _, replaced) = rewrite_lines(lines(content), new_line);
    let joined = join_seq(out, "\n"@);
    if replaced {
        if ends_with(content, "\n"@) && !ends_with(joined, "\n"@) {
            joined + "\n"@
        } else {
            joined
        }
    } else {
        let c = if ends_with(joined, "\n"@) {
            joined
        } else {
            joined + "\n"@
        };
        let c2 = if contains(content, "[plugins]"@) {
            c
        } else {
            c + "\n[plugins]\n"@
        };
        c2 + new_line + "\n"@
    }
}

/// Rewrites `cblog.toml` so that its `[plugins]` section enables what
/// `new_line` says (see `rewrite_config_spec`).
pub fn rewrite_plugins_config(content: &str, new_line: &str) -> (r: String)
    ensures
        r@ == rewrite_config_spec(content@, new_line@),
{
    let v = chars_of(content);
    let bounds = line_bounds(&v);
    let ghost ls = lines(v@);
    let section = chars_of("[plugins]");
    let key = chars_of("enabled");
    let mut out: Vec<String> = Vec::new();
    let mut in_section = false;
    let mut replaced = false;
    let mut i: usize = 0;
    assert(ls.take(0) =~= Seq::<Seq<char>>::empty());
    while i < bounds.len()
        invariant
            i <= bounds.len(),
            v@ == content@,
            ls == lines(v@),
            ranges_view(v@, bounds@) == ls,
            forall|k: int| 0 <= k < bounds.len() ==> (#[trigger] bounds@[k]).0 <= bounds@[k].1 <= v.len(),
            section@ == "[plugins]"@,
            key@ == "enabled"@,
            rewrite_lines(ls.take(i as int), new_line@) == (out.deep_view(), in_section, replaced),
        decreases bounds.len() - i,
    {
        let (a, b) = bounds[i];
        assert(ls[i as int] == v@.subrange(a as int, b as int));
        let (x, y) = crate::text::trim_bounds(&v, a, b);
        let ghost t = v@.subrange(x as int, y as int);
        if y > x && v[x] == '[' {
            in_section = crate::text::range_eq(&v, x, y, &section);
        }
        let mut is_entry = false;
        if starts_with_at(&v, x, y, &key) {
            let e = crate::text::index_of_exec(&v, '=', x);
            proof {
                crate::text::lemma_index_of_props(v@, '=', x as int);
                if e < y {
                    assert(t[e - x] == '=');
                } else {
                    assert forall|j: int| 0 <= j < t.len() implies t[j] != '=' by {
                        assert(t[j] == v@[x + j]);
                    }
                }
            }
            is_entry = e < y;
        }
        let ghost before = out.deep_view();
        if in_section && !replaced && is_entry {
            replaced = true;
            out.push(new_line.to_owned());
            assert(out.deep_view() =~= before.push(new_line@));
        } else {
            out.push(string_of_range(&v, a, b));
            assert(out.deep_view() =~= before.push(ls[i as int]));
        }
        assert(ls.take(i + 1).drop_last() =~= ls.take(i as int));
        assert(ls.take(i + 1).last() == ls[i as int]);
        i += 1;
    }
    assert(ls.take(bounds.len() as int) =~= ls);
    let mut joined = join_strings(&out, "\n");
    let jv = chars_of(joined.as_str());
    let nl = chars_of("\n");
    let content_nl = ends_with_at(&v, 0, v.len(), &nl);
    let joined_nl = ends_with_at(&jv, 0, jv.len(), &nl);
    assert(v@.subrange(0, v.len() as int) == v@);
    assert(jv@.subrange(0, jv.len() as int) == jv@);
    if replaced {
        if content_nl && !joined_nl {
            string_push_str(&mut joined, "\n");
        }
        joined
    } else {
        if !joined_nl {
            string_push_str(&mut joined, "\n");
        }
        let has_section = find_exec(&v, &section, 0).is_some();
        if !has_section {
            string_push_str(&mut joined, "\n[plugins]\n");
        }
        string_push_str(&mut joined, new_line);
        string_push_str(&mut joined, "\n");
        joined
    }
}

/// What turning `name` on or off does: the new enabled list, and
/// `cblog.toml` rewritten to enable exactly that list.
pub fn toggle_plugin_config(content: &str, enabled: &Vec<String>, name: &str) -> (r: (String, Vec<String>))
    ensures
        r.1.deep_view() == toggled(enabled.deep_view(), name@),
        r.0@ == rewrite_config_spec(content@, enabled_line_spec(toggled(enabled.deep_view(), name@))),
{
    let next = toggle_enabled(enabled, name);
    let line = enabled_line(&next);
    (rewrite_plugins_config(content, line.as_str()), next)
}

/// Toggling a plugin twice brings back the list when it was off; toggling
/// turns an absent plugin on, and turns a plugin listed once off.
pub proof fn law_toggle_flips(s: Seq<Seq<char>>, n: Seq<char>)
    ensures
        !s.contains(n) ==> toggled(s, n).contains(n) && toggled(toggled(s, n), n) == s,
        s.contains(n) && (forall|i: int, j: int| 0 <= i < j < s.len() ==> s[i] != s[j]) ==> !toggled(
            s,
            n,
        ).contains(n),
{
    lemma_first_index(s, n);
    if !s.contains(n) {
        let t = s.push(n);
        assert(t[s.len() as int] == n);
        lemma_first_index(t, n);
        let k = first_index(t, n)->Some_0;
        if k < s.len() {
            assert(t[k] == s[k]);
        }
        assert(t.remove(s.len() as int) =~= s);
    } else {
        let k = first_index(s, n)->Some_0;
        let r = s.remove(k);
        if r.contains(n) {
            let j = choose|j: int| 0 <= j < r.len() && r[j] == n;
            if j < k {
                assert(r[j] == s[j]);
            } else {
                assert(r[j] == s[j + 1]);
            }
        }
    }
}

} // verus!
