//! Plugin manifests (`plugin.toml`) and version comparison.
use crate::text::{
    chars_of, index_of_exec, parse_unsigned, parse_unsigned_chars, split_on, vec_range,
};
use vstd::prelude::*;

verus! {

/// The whole of a `plugin.toml`.
#[derive(Debug)]
pub struct PluginToml {
    pub plugin: PluginMeta,
    pub capabilities: PluginCapabilities,
    pub dependencies: PluginDependencies,
    pub admin: PluginAdmin,
}

/// `[admin]`: pages the plugin adds to the admin area.
#[derive(Debug, Default)]
pub struct PluginAdmin {
    pub pages: Vec<PluginAdminPage>,
}

/// `[[admin.pages]]`: one admin page.
#[derive(Debug)]
pub struct PluginAdminPage {
    pub label: String,
    pub slug: String,
    pub icon: String,
}

/// `[plugin]`: metadata.
#[derive(Debug)]
pub struct PluginMeta {
    pub name: String,
    pub version: String,
    pub author: String,
    pub description: String,
    pub homepage: String,
    pub min_cblog: Option<String>,
}

/// `[capabilities]`: what the plugin reads, writes and generates.
#[derive(Debug, Default)]
pub struct PluginCapabilities {
    pub reads: Vec<String>,
    pub writes: Vec<String>,
    pub generates: Vec<String>,
}

/// `[dependencies]`: plugins to load before this one, and plugins it cannot
/// run beside.
#[derive(Debug, Default)]
pub struct PluginDependencies {
    pub after: Vec<String>,
    pub conflicts: Vec<String>,
}

/// What is known of a loaded plugin.
#[derive(Debug)]
pub struct PluginInfo {
    pub name: String,
    pub version: String,
    pub description: String,
    pub min_cblog: Option<String>,
    pub capabilities: PluginCapabilities,
    pub dependencies: PluginDependencies,
}

/// The number a version component stands for: its value as a `u64`, or zero
/// when it is not one.
pub open spec fn part_value(p: Seq<char>) -> nat {
    match parse_unsigned(p, u64::MAX as nat) {
        Some(n) => n,
        None => 0,
    }
}

/// The dot-separated components of a version, as numbers.
pub open spec fn version_parts(v: Seq<char>) -> Seq<nat> {
    split_on(v, '.').map_values(|p: Seq<char>| part_value(p))
}

/// Component `i` of `a`, zero past its end.
pub open spec fn part_at(a: Seq<nat>, i: int) -> nat {
    if 0 <= i < a.len() {
        a[i]
    } else {
        0
    }
}

/// Whether `a` comes before `b` comparing from component `i` on, missing
/// components counting as zero.
pub open spec fn parts_lt_from(a: Seq<nat>, b: Seq<nat>, i: int) -> bool
    decreases a.len() + b.len() - i,
{
    if i < 0 || (i >= a.len() && i >= b.len()) {
        false
    } else if part_at(a, i) < part_at(b, i) {
        true
    } else if part_at(a, i) > part_at(b, i) {
        false
    } else {
        parts_lt_from(a, b, i + 1)
    }
}

/// Whether version `v1` is lower than version `v2`.
pub open spec fn version_lt_spec(v1: Seq<char>, v2: Seq<char>) -> bool {
    parts_lt_from(version_parts(v1), version_parts(v2), 0)
}

fn version_parts_exec(s: &str) -> (r: Vec<u64>)
    ensures
        r@.map_values(|x: u64| x as nat) == version_parts(s@),
{
    let v = chars_of(s);
    let ghost target = version_parts(s@);
    let mut r: Vec<u64> = Vec::new();
    let mut start: usize = 0;
    assert(v@.skip(0) == v@);
    loop
        invariant
            start <= v.len(),
            v@ == s@,
            target == version_parts(s@),
            target == r@.map_values(|x: u64| x as nat) + version_parts(v@.skip(start as int)),
        decreases v.len() - start,
    {
        let k = index_of_exec(&v, '.', start);
        proof {
            crate::text::lemma_index_of_shift(v@, '.', start as int, 0);
            crate::text::lemma_index_of_props(v@, '.', start as int);
        }
        let ghost rest = v@.skip(start as int);
        let ghost before = r@.map_values(|x: u64| x as nat);
        let seg = vec_range(&v, start, k);
        let n: u64 = match parse_unsigned_chars(&seg, u64::MAX) {
            Some(n) => n,
            None => 0,
        };
        r.push(n);
        assert(r@.map_values(|x: u64| x as nat) == before.push(part_value(seg@)));
        if k < v.len() {
            proof {
                assert(rest.take(k - start) == seg@);
                assert(rest.skip(k - start + 1) == v@.skip(k + 1));
                assert(split_on(rest, '.') == seq![seg@] + split_on(v@.skip(k + 1), '.'));
                assert(version_parts(rest) == seq![part_value(seg@)] + version_parts(
                    v@.skip(k + 1),
                ));
            }
            start = k + 1;
        } else {
            proof {
                assert(rest == seg@);
                assert(split_on(rest, '.') == seq![rest]);
                assert(version_parts(rest) == seq![part_value(seg@)]);
            }
            return r;
        }
    }
}

/// Whether version `v1` is lower than `v2`: dot-separated numeric components
/// compared in turn, a missing or non-numeric component counting as zero.
pub fn version_lt(v1: &str, v2: &str) -> (r: bool)
    ensures
        r == version_lt_spec(v1@, v2@),
{
    let a = version_parts_exec(v1);
    let b = version_parts_exec(v2);
    let ghost av = a@.map_values(|x: u64| x as nat);
    let ghost bv = b@.map_values(|x: u64| x as nat);
    let len = if a.len() > b.len() {
        a.len()
    } else {
        b.len()
    };
    let mut i: usize = 0;
    while i < len
        invariant
            len == (if a.len() > b.len() {
                a.len()
            } else {
                b.len()
            }),
            i <= len,
            av == a@.map_values(|x: u64| x as nat),
            bv == b@.map_values(|x: u64| x as nat),
            av == version_parts(v1@),
            bv == version_parts(v2@),
            av.len() == a.len(),
            bv.len() == b.len(),
            parts_lt_from(av, bv, 0) == parts_lt_from(av, bv, i as int),
        decreases len - i,
    {
        let sa: u64 = if i < a.len() {
            a[i]
        } else {
            0
        };
        let sb: u64 = if i < b.len() {
            b[i]
        } else {
            0
        };
        assert(part_at(av, i as int) == sa as nat);
        assert(part_at(bv, i as int) == sb as nat);
        if sa < sb {
            return true;
        }
        if sa > sb {
            return false;
        }
        i += 1;
    }
    false
}

/// No version is lower than itself.
pub proof fn law_version_lt_irreflexive(v: Seq<char>)
    ensures
        !version_lt_spec(v, v),
{
    lemma_parts_lt_irreflexive(version_parts(v), 0);
}

/// Of two versions, at most one is lower than the other.
pub proof fn law_version_lt_asymmetric(v1: Seq<char>, v2: Seq<char>)
    ensures
        !(version_lt_spec(v1, v2) && version_lt_spec(v2, v1)),
{
    lemma_parts_lt_asymmetric(version_parts(v1), version_parts(v2), 0);
}

/// Lower-than between versions is transitive.
pub proof fn law_version_lt_transitive(v1: Seq<char>, v2: Seq<char>, v3: Seq<char>)
    requires
        version_lt_spec(v1, v2),
        version_lt_spec(v2, v3),
    ensures
        version_lt_spec(v1, v3),
{
    lemma_parts_lt_transitive(version_parts(v1), version_parts(v2), version_parts(v3), 0);
}

proof fn lemma_parts_lt_irreflexive(a: Seq<nat>, i: int)
    ensures
        !parts_lt_from(a, a, i),
    decreases a.len() + a.len() - i,
{
    if !(i < 0 || i >= a.len()) {
        lemma_parts_lt_irreflexive(a, i + 1);
    }
}

proof fn lemma_parts_lt_asymmetric(a: Seq<nat>, b: Seq<nat>, i: int)
    ensures
        !(parts_lt_from(a, b, i) && parts_lt_from(b, a, i)),
    decreases a.len() + b.len() - i,
{
    if !(i < 0 || (i >= a.len() && i >= b.len())) {
        lemma_parts_lt_asymmetric(a, b, i + 1);
    }
}

proof fn lemma_parts_lt_transitive(a: Seq<nat>, b: Seq<nat>, c: Seq<nat>, i: int)
    requires
        parts_lt_from(a, b, i),
        parts_lt_from(b, c, i),
    ensures
        parts_lt_from(a, c, i),
    decreases a.len() + b.len() + c.len() - i,
{
    if part_at(a, i) == part_at(b, i) && part_at(b, i) == part_at(c, i) {
        lemma_parts_lt_transitive(a, b, c, i + 1);
    }
}

} // verus!
