//! The decisions of the build pipeline: when to rebuild everything, and
//! what an incremental build must render.
use crate::builder::graph::{pages_of, with_dependency, DepGraph};
use crate::builder::stages::generate::PageSpec;
use crate::builder::incremental::{changed_spec, BuildStats, HashCache};
use crate::digest::{hex_of, sha256_of};
use crate::text::{chars_of, ends_with, ends_with_at, starts_with, string_of_range, string_push_str};
use vstd::prelude::*;

verus! {

/// The text whose hash stands for a post's content: slug, title, content,
/// update time and metadata, separated by `|`.
pub open spec fn post_fingerprint(
    slug: Seq<char>,
    title: Seq<char>,
    content: Seq<char>,
    updated_at: Seq<char>,
    meta: Seq<char>,
) -> Seq<char> {
    slug + "|"@ + title + "|"@ + content + "|"@ + updated_at + "|"@ + meta
}

/// The content hash of a post (its metadata given as JSON text).
pub fn compute_post_hash(slug: &str, title: &str, content: &str, updated_at: &str, meta: &str) -> (r:
    String)
    ensures
        r@ == hex_of(
            sha256_of(vstd::utf8::encode_utf8(post_fingerprint(slug@, title@, content@, updated_at@, meta@))),
        ),
{
    let mut f = slug.to_owned();
    string_push_str(&mut f, "|");
    string_push_str(&mut f, title);
    string_push_str(&mut f, "|");
    string_push_str(&mut f, content);
    string_push_str(&mut f, "|");
    string_push_str(&mut f, updated_at);
    string_push_str(&mut f, "|");
    string_push_str(&mut f, meta);
    HashCache::hash_bytes(f.as_str().as_bytes())
}

/// What hashing a file gave.
#[derive(Debug)]
pub enum HashProbe {
    /// The file does not exist.
    Absent,
    /// It exists but could not be read.
    Failed,
    /// It was read; this is its hash.
    Hash(String),
}

/// Whether to rebuild everything: the configuration changed or could not be
/// hashed, the theme's `theme.toml` changed or could not be hashed, or the
/// output directory is missing.
pub open spec fn full_rebuild_spec(
    m: Map<Seq<char>, Seq<char>>,
    config: HashProbe,
    theme: HashProbe,
    output_dir_exists: bool,
) -> bool {
    match config {
        HashProbe::Failed => true,
        HashProbe::Hash(h) if changed_spec(m, "cblog.toml"@, h@) => true,
        _ => match theme {
            HashProbe::Failed => true,
            HashProbe::Hash(h) if changed_spec(m, "theme.toml"@, h@) => true,
            _ => !output_dir_exists,
        },
    }
}

/// Whether the build must be a full one.
pub fn should_full_rebuild(
    cache: &HashCache,
    config: &HashProbe,
    theme: &HashProbe,
    output_dir_exists: bool,
) -> (r: bool)
    ensures
        r == full_rebuild_spec(cache@, *config, *theme, output_dir_exists),
{
    match config {
        HashProbe::Failed => return true,
        HashProbe::Hash(h) => {
            if cache.config_changed(Some(h.as_str())) {
                return true;
            }
        },
        HashProbe::Absent => {},
    }
    match theme {
        HashProbe::Failed => return true,
        HashProbe::Hash(h) => {
            if cache.has_changed("theme.toml", h.as_str()) {
                return true;
            }
        },
        HashProbe::Absent => {},
    }
    !output_dir_exists
}

/// Whether a build is a full one: when it is forced, or when
/// `should_full_rebuild` says so; otherwise an incremental build is tried.
pub fn full_build_needed(
    force: bool,
    cache: &HashCache,
    config: &HashProbe,
    theme: &HashProbe,
    output_dir_exists: bool,
) -> (r: bool)
    ensures
        r == (force || full_rebuild_spec(cache@, *config, *theme, output_dir_exists)),
{
    force || should_full_rebuild(cache, config, theme, output_dir_exists)
}

/// The cache key of a post.
pub open spec fn post_key(slug: Seq<char>) -> Seq<char> {
    "post:"@ + slug
}

/// `m` with the hash of each post of `ps` (slug, hash) recorded, in order.
pub open spec fn with_posts(m: Map<Seq<char>, Seq<char>>, ps: Seq<(Seq<char>, Seq<char>)>) -> Map<
    Seq<char>,
    Seq<char>,
>
    decreases ps.len(),
{
    if ps.len() == 0 {
        m
    } else {
        with_posts(m, ps.drop_last()).insert(post_key(ps.last().0), ps.last().1)
    }
}

/// Whether some post of `ps` changed, each checked against the cache as
/// updated by the posts before it.
pub open spec fn some_post_changed(m: Map<Seq<char>, Seq<char>>, ps: Seq<(Seq<char>, Seq<char>)>) -> bool
    decreases ps.len(),
{
    if ps.len() == 0 {
        false
    } else {
        some_post_changed(m, ps.drop_last()) || changed_spec(
            with_posts(m, ps.drop_last()),
            post_key(ps.last().0),
            ps.last().1,
        )
    }
}

/// Whether the cache `m` remembers a post whose slug is not among `slugs`.
pub open spec fn post_removed(m: Map<Seq<char>, Seq<char>>, slugs: Seq<Seq<char>>) -> bool {
    exists|k: Seq<char>|
        #[trigger] m.contains_key(k) && starts_with(k, "post:"@) && !slugs.contains(k.skip(5))
}

/// The dependency-graph key of a template file: its name without `.cbtml`.
pub open spec fn template_dep_key(t: Seq<char>) -> Seq<char> {
    if ends_with(t, ".cbtml"@) {
        t.take(t.len() - 6)
    } else {
        t
    }
}

/// What an incremental build renders.
#[derive(Debug)]
pub enum IncrementalPlan {
    /// Nothing changed: every page stays as built.
    NothingChanged,
    /// A post was added, changed or removed: render every page.
    RenderAll,
    /// Only templates changed: render these pages.
    RenderOnly(Vec<String>),
}

/// Whether `urls` are, without repetition, exactly the pages that used one
/// of `templates`.
pub open spec fn affected_urls_ok(
    urls: Seq<Seq<char>>,
    deps: Map<Seq<char>, Seq<Seq<char>>>,
    templates: Seq<Seq<char>>,
) -> bool {
    &&& urls.no_duplicates()
    &&& forall|u: Seq<char>|
        urls.contains(u) <==> exists|i: int|
            0 <= i < templates.len() && #[trigger] pages_of(
                deps,
                template_dep_key(templates[i]),
            ).contains(u)
}

fn contains_chars_vec(v: &Vec<String>, x: &str) -> (r: bool)
    ensures
        r == v.deep_view().contains(x@),
{
    let mut i: usize = 0;
    while i < v.len()
        invariant
            i <= v.len(),
            forall|j: int| 0 <= j < i ==> v.deep_view()[j] != x@,
        decreases v.len() - i,
    {
        if crate::builder::keyed::str_eq(v[i].as_str(), x) {
            assert(v.deep_view()[i as int] == x@);
            return true;
        }
        i += 1;
    }
    false
}

/// `t` without a `.cbtml` ending.
fn template_dep_key_exec(t: &str) -> (r: String)
    ensures
        r@ == template_dep_key(t@),
{
    let v = chars_of(t);
    let suf = chars_of(".cbtml");
    proof {
        reveal_strlit(".cbtml");
    }
    assert(v@.subrange(0, v@.len() as int) == v@);
    if ends_with_at(&v, 0, v.len(), &suf) {
        assert(v@.take(v@.len() - 6) == v@.subrange(0, v.len() - 6));
        string_of_range(&v, 0, v.len() - 6)
    } else {
        string_of_range(&v, 0, v.len())
    }
}

proof fn lemma_take_contains(s: Seq<Seq<char>>, t: int, u: Seq<char>)
    requires
        0 <= t < s.len(),
    ensures
        s.take(t + 1).contains(u) <==> (s.take(t).contains(u) || u == s[t]),
{
    if s.take(t + 1).contains(u) && u != s[t] {
        let a = choose|a: int| 0 <= a < t + 1 && #[trigger] s.take(t + 1)[a] == u;
        assert(s.take(t)[a] == u);
    }
    if s.take(t).contains(u) {
        let a = choose|a: int| 0 <= a < t && #[trigger] s.take(t)[a] == u;
        assert(s.take(t + 1)[a] == u);
    }
    if u == s[t] {
        assert(s.take(t + 1)[t] == u);
    }
}

/// Appends `x` unless it is there already.
fn push_unique(urls: &mut Vec<String>, x: &String)
    requires
        old(urls).deep_view().no_duplicates(),
    ensures
        final(urls).deep_view().no_duplicates(),
        forall|u: Seq<char>|
            #[trigger] final(urls).deep_view().contains(u) <==> (old(urls).deep_view().contains(u)
                || u == x@),
{
    let ghost ub = urls.deep_view();
    if !contains_chars_vec(urls, x.as_str()) {
        urls.push(x.clone());
        proof {
            let un = urls.deep_view();
            assert(un =~= ub.push(x@));
            assert forall|a: int, b: int|
                0 <= a < un.len() && 0 <= b < un.len() && a != b implies un[a] != un[b] by {
                if a < ub.len() && b < ub.len() {
                } else if a == ub.len() {
                    assert(ub.contains(ub[b]));
                } else {
                    assert(ub.contains(ub[a]));
                }
            }
            assert forall|u: Seq<char>| #[trigger] un.contains(u) <==> (ub.contains(u) || u == x@) by {
                if un.contains(u) && u != x@ {
                    let a = choose|a: int| 0 <= a < un.len() && un[a] == u;
                    assert(ub[a] == u);
                }
                if ub.contains(u) {
                    let a = choose|a: int| 0 <= a < ub.len() && ub[a] == u;
                    assert(un[a] == u);
                }
                if u == x@ {
                    assert(un[ub.len() as int] == u);
                }
            }
        }
    }
}

/// The pages that used one of `templates`, each once.
pub fn affected_urls(deps: &DepGraph, templates: &Vec<String>) -> (r: Vec<String>)
    ensures
        affected_urls_ok(r.deep_view(), deps@, templates.deep_view()),
{
    let mut urls: Vec<String> = Vec::new();
    let mut i: usize = 0;
    while i < templates.len()
        invariant
            i <= templates.len(),
            urls.deep_view().no_duplicates(),
            forall|u: Seq<char>|
                #[trigger] urls.deep_view().contains(u) <==> exists|j: int|
                    0 <= j < i && #[trigger] pages_of(
                        deps@,
                        template_dep_key(templates.deep_view()[j]),
                    ).contains(u),
        decreases templates.len() - i,
    {
        let key = template_dep_key_exec(templates[i].as_str());
        let pages = deps.get_affected_pages(key.as_str());
        let ghost pv = pages.deep_view();
        let ghost u0 = urls.deep_view();
        let mut t: usize = 0;
        while t < pages.len()
            invariant
                t <= pages.len(),
                pv == pages.deep_view(),
                urls.deep_view().no_duplicates(),
                forall|u: Seq<char>|
                    #[trigger] urls.deep_view().contains(u) <==> (u0.contains(u) || pv.take(
                        t as int,
                    ).contains(u)),
            decreases pages.len() - t,
        {
            push_unique(&mut urls, &pages[t]);
            proof {
                assert forall|u: Seq<char>|
                    #[trigger] urls.deep_view().contains(u) <==> (u0.contains(u) || pv.take(
                        t + 1,
                    ).contains(u)) by {
                    lemma_take_contains(pv, t as int, u);
                }
            }
            t += 1;
        }
        proof {
            assert(pv.take(pages.len() as int) == pv);
            assert(templates.deep_view()[i as int] == templates[i as int]@);
            assert forall|u: Seq<char>|
                #[trigger] urls.deep_view().contains(u) <==> exists|j: int|
                    0 <= j < i + 1 && #[trigger] pages_of(
                        deps@,
                        template_dep_key(templates.deep_view()[j]),
                    ).contains(u) by {
                if pv.contains(u) {
                    assert(pages_of(deps@, template_dep_key(templates.deep_view()[i as int])).contains(
                        u,
                    ));
                }
                if exists|j: int|
                    0 <= j < i + 1 && #[trigger] pages_of(
                        deps@,
                        template_dep_key(templates.deep_view()[j]),
                    ).contains(u) {
                    let j = choose|j: int|
                        0 <= j < i + 1 && #[trigger] pages_of(
                            deps@,
                            template_dep_key(templates.deep_view()[j]),
                        ).contains(u);
                    if j == i {
                        assert(pv.contains(u));
                    }
                }
                if u0.contains(u) {
                    let j = choose|j: int|
                        0 <= j < i && #[trigger] pages_of(
                            deps@,
                            template_dep_key(templates.deep_view()[j]),
                        ).contains(u);
                    assert(0 <= j < i + 1);
                }
            }
        }
        i += 1;
    }
    urls
}

/// Whether the cache remembers a post that is no longer among `current`.
fn post_removed_exec(cache: &HashCache, current: &Vec<String>) -> (r: bool)
    ensures
        r == post_removed(cache@, current.deep_view()),
{
    let keys = cache.cached_post_keys();
    let mut t: usize = 0;
    while t < keys.len()
        invariant
            t <= keys.len(),
            forall|k: Seq<char>|
                keys.deep_view().contains(k) <==> (cache@.contains_key(k) && starts_with(
                    k,
                    "post:"@,
                )),
            forall|a: int|
                0 <= a < t ==> current.deep_view().contains(#[trigger] keys.deep_view()[a].skip(5)),
        decreases keys.len() - t,
    {
        let kv = chars_of(keys[t].as_str());
        assert(keys.deep_view()[t as int] == keys[t as int]@);
        assert(keys.deep_view().contains(keys[t as int]@));
        proof {
            reveal_strlit("post:");
        }
        let slug = string_of_range(&kv, 5, kv.len());
        assert(kv@.subrange(5, kv@.len() as int) == kv@.skip(5));
        if !contains_chars_vec(current, slug.as_str()) {
            assert(cache@.contains_key(keys[t as int]@));
            return true;
        }
        t += 1;
    }
    proof {
        assert forall|k: Seq<char>|
            #[trigger] cache@.contains_key(k) && starts_with(k, "post:"@) implies current.deep_view().contains(
            k.skip(5),
        ) by {
            assert(keys.deep_view().contains(k));
            let a = choose|a: int| 0 <= a < keys.deep_view().len() && keys.deep_view()[a] == k;
        }
    }
    false
}

/// Whether `plan` is what an incremental build must do when the posts
/// `ps` (slug, hash) are checked against the cache `m` and the templates
/// `templates` changed.
pub open spec fn plan_ok(
    plan: IncrementalPlan,
    m: Map<Seq<char>, Seq<char>>,
    ps: Seq<(Seq<char>, Seq<char>)>,
    templates: Seq<Seq<char>>,
    deps: Map<Seq<char>, Seq<Seq<char>>>,
) -> bool {
    let any = some_post_changed(m, ps) || post_removed(
        with_posts(m, ps),
        ps.map_values(|p: (Seq<char>, Seq<char>)| p.0),
    );
    if any {
        plan is RenderAll
    } else if templates.len() == 0 {
        plan is NothingChanged
    } else {
        plan matches IncrementalPlan::RenderOnly(urls) && affected_urls_ok(
            urls.deep_view(),
            deps,
            templates,
        )
    }
}

/// The entries of a (slug, hash) list.
pub open spec fn post_hashes(v: Seq<(String, String)>) -> Seq<(Seq<char>, Seq<char>)> {
    v.map_values(|e: (String, String)| (e.0@, e.1@))
}

/// `"post:"` followed by `slug`.
fn post_key_exec(slug: &str) -> (r: String)
    ensures
        r@ == post_key(slug@),
{
    let mut k = "post:".to_owned();
    string_push_str(&mut k, slug);
    k
}

/// Checks every post's hash against the cache (recording the new hashes) and
/// decides what an incremental build renders: everything when a post was
/// added, changed or removed; nothing when neither posts nor templates
/// changed; else the pages that used a changed template.
pub fn plan_incremental(
    cache: &mut HashCache,
    posts: &Vec<(String, String)>,
    changed_templates: &Vec<String>,
    deps: &DepGraph,
) -> (r: IncrementalPlan)
    ensures
        final(cache)@ == with_posts(old(cache)@, post_hashes(posts@)),
        final(cache).path() == old(cache).path(),
        plan_ok(r, old(cache)@, post_hashes(posts@), changed_templates.deep_view(), deps@),
{
    let ghost m0 = cache@;
    let ghost ps = post_hashes(posts@);
    let mut any = false;
    let mut i: usize = 0;
    while i < posts.len()
        invariant
            i <= posts.len(),
            ps == post_hashes(posts@),
            cache@ == with_posts(m0, ps.take(i as int)),
            cache.path() == old(cache).path(),
            any == some_post_changed(m0, ps.take(i as int)),
        decreases posts.len() - i,
    {
        let key = post_key_exec(posts[i].0.as_str());
        assert(ps.take(i + 1).drop_last() == ps.take(i as int));
        assert(ps.take(i + 1).last() == ps[i as int]);
        if cache.has_changed(key.as_str(), posts[i].1.as_str()) {
            any = true;
        }
        cache.update(key, posts[i].1.clone());
        i += 1;
    }
    assert(ps.take(posts.len() as int) == ps);
    let ghost slugs = ps.map_values(|p: (Seq<char>, Seq<char>)| p.0);
    let mut current: Vec<String> = Vec::new();
    let mut c: usize = 0;
    while c < posts.len()
        invariant
            c <= posts.len(),
            ps == post_hashes(posts@),
            slugs == ps.map_values(|p: (Seq<char>, Seq<char>)| p.0),
            current.deep_view() == slugs.take(c as int),
        decreases posts.len() - c,
    {
        let ghost cb = current.deep_view();
        current.push(posts[c].0.clone());
        assert(current.deep_view() =~= cb.push(slugs[c as int]));
        assert(slugs.take(c + 1) =~= slugs.take(c as int).push(slugs[c as int]));
        c += 1;
    }
    assert(slugs.take(posts.len() as int) == slugs);
    if !any {
        any = post_removed_exec(cache, &current);
    }
    if any {
        IncrementalPlan::RenderAll
    } else if changed_templates.len() == 0 {
        IncrementalPlan::NothingChanged
    } else {
        IncrementalPlan::RenderOnly(affected_urls(deps, changed_templates))
    }
}

/// Whether page URL `u` is rendered: every page when there is no rebuild
/// set, else those whose URL is in it.
pub open spec fn wanted(rebuild: Option<Seq<Seq<char>>>, u: Seq<char>) -> bool {
    match rebuild {
        Some(set) => set.contains(u),
        None => true,
    }
}

/// The positions, in order, of the pages of `urls` that are rendered.
pub open spec fn selected_pages(urls: Seq<Seq<char>>, rebuild: Option<Seq<Seq<char>>>) -> Seq<int>
    decreases urls.len(),
{
    if urls.len() == 0 {
        Seq::empty()
    } else {
        let p = selected_pages(urls.drop_last(), rebuild);
        if wanted(rebuild, urls.last()) {
            p.push(urls.len() - 1)
        } else {
            p
        }
    }
}

/// The pages to render out of the pages with URLs `urls`: their positions,
/// and how many are left to the cache.
pub fn select_pages(urls: &Vec<String>, rebuild: Option<Vec<String>>) -> (r: (Vec<usize>, usize))
    ensures
        r.0@.map_values(|i: usize| i as int) == selected_pages(
            urls.deep_view(),
            crate::lua::sandbox::opt_deep(rebuild),
        ),
        r.1 == urls.len() - r.0.len(),
{
    let ghost rb = crate::lua::sandbox::opt_deep(rebuild);
    let mut picked: Vec<usize> = Vec::new();
    let mut i: usize = 0;
    while i < urls.len()
        invariant
            i <= urls.len(),
            rb == crate::lua::sandbox::opt_deep(rebuild),
            picked.len() <= i,
            picked@.map_values(|k: usize| k as int) == selected_pages(
                urls.deep_view().take(i as int),
                rb,
            ),
        decreases urls.len() - i,
    {
        let ghost before = picked@.map_values(|k: usize| k as int);
        let ghost prefix = urls.deep_view().take(i + 1);
        proof {
            assert(prefix.drop_last() =~= urls.deep_view().take(i as int));
            assert(prefix.last() == urls[i as int]@);
        }
        let keep = match &rebuild {
            Some(set) => contains_chars_vec(set, urls[i].as_str()),
            None => true,
        };
        if keep {
            picked.push(i);
            assert(picked@.map_values(|k: usize| k as int) =~= before.push(i as int));
        }
        i += 1;
    }
    assert(urls.deep_view().take(urls.len() as int) =~= urls.deep_view());
    let cached = urls.len() - picked.len();
    (picked, cached)
}

/// A full build renders every page, in order, and leaves none to the cache.
pub proof fn law_full_build_renders_all(urls: Seq<Seq<char>>)
    ensures
        selected_pages(urls, None) == Seq::new(urls.len(), |i: int| i),
    decreases urls.len(),
{
    if urls.len() > 0 {
        law_full_build_renders_all(urls.drop_last());
        assert(selected_pages(urls, None) =~= Seq::new(urls.len(), |i: int| i));
    }
}

/// An incremental build renders exactly the pages whose URL is in the
/// rebuild set, each once and in order.
pub proof fn law_selected_pages_are_wanted(urls: Seq<Seq<char>>, rebuild: Option<Seq<Seq<char>>>)
    ensures
        forall|k: int|
            0 <= k < selected_pages(urls, rebuild).len() ==> {
                let i = #[trigger] selected_pages(urls, rebuild)[k];
                0 <= i < urls.len() && wanted(rebuild, urls[i])
            },
        forall|i: int|
            0 <= i < urls.len() && wanted(rebuild, #[trigger] urls[i]) ==> selected_pages(
                urls,
                rebuild,
            ).contains(i),
        forall|a: int, b: int|
            0 <= a < b < selected_pages(urls, rebuild).len() ==> #[trigger] selected_pages(
                urls,
                rebuild,
            )[a] < #[trigger] selected_pages(urls, rebuild)[b],
    decreases urls.len(),
{
    if urls.len() > 0 {
        let d = urls.drop_last();
        law_selected_pages_are_wanted(d, rebuild);
        let p = selected_pages(d, rebuild);
        assert forall|k: int| 0 <= k < p.len() implies #[trigger] p[k] < d.len() by {}
        assert forall|i: int| 0 <= i < d.len() implies #[trigger] d[i] == urls[i] by {}
        assert forall|i: int|
            0 <= i < urls.len() && wanted(rebuild, #[trigger] urls[i]) implies selected_pages(
            urls,
            rebuild,
        ).contains(i) by {
            if i < d.len() {
                assert(wanted(rebuild, d[i]));
                let k = choose|k: int| 0 <= k < p.len() && p[k] == i;
                assert(selected_pages(urls, rebuild)[k] == i);
            } else {
                let q = selected_pages(urls, rebuild);
                assert(q[q.len() - 1] == i);
            }
        }
    }
}

/// Plugins whose work the core now does itself.
pub open spec fn is_builtin_feature(name: Seq<char>) -> bool {
    name == "image-optimize"@ || name == "syntax-highlight"@ || name == "toc"@ || name == "search"@
}

/// A plugin name as a configuration section: `-` becomes `_`.
pub open spec fn feature_section(name: Seq<char>) -> Seq<char> {
    name.map_values(|c: char| if c == '-' { '_' } else { c })
}

/// The warning for an enabled plugin that is built in.
pub open spec fn builtin_warning(name: Seq<char>) -> Seq<char> {
    "插件 '"@ + name + "' 已内置为核心功能，请从 [plugins] enabled 中移除。可通过 [features."@
        + feature_section(name) + "] enabled = false 禁用。"@
}

/// The warnings for the enabled plugins `names`, in order.
pub open spec fn builtin_warnings(names: Seq<Seq<char>>) -> Seq<Seq<char>>
    decreases names.len(),
{
    if names.len() == 0 {
        Seq::empty()
    } else {
        let p = builtin_warnings(names.drop_last());
        if is_builtin_feature(names.last()) {
            p.push(builtin_warning(names.last()))
        } else {
            p
        }
    }
}

fn section_of(name: &str) -> (r: String)
    ensures
        r@ == feature_section(name@),
{
    let v = chars_of(name);
    let mut out = String::new();
    let mut i: usize = 0;
    while i < v.len()
        invariant
            i <= v.len(),
            v@ == name@,
            out@ == feature_section(name@).take(i as int),
        decreases v.len() - i,
    {
        let c = if v[i] == '-' {
            '_'
        } else {
            v[i]
        };
        crate::text::string_push(&mut out, c);
        assert(feature_section(name@).take(i + 1) =~= feature_section(name@).take(i as int).push(c));
        i += 1;
    }
    assert(feature_section(name@).take(v.len() as int) =~= feature_section(name@));
    out
}

/// The warnings for the enabled plugins that are built-in features, in the
/// order the plugins are enabled.
pub fn builtin_feature_warnings(enabled: &Vec<String>) -> (r: Vec<String>)
    ensures
        r.deep_view() == builtin_warnings(enabled.deep_view()),
{
    let mut out: Vec<String> = Vec::new();
    let mut i: usize = 0;
    while i < enabled.len()
        invariant
            i <= enabled.len(),
            out.deep_view() == builtin_warnings(enabled.deep_view().take(i as int)),
        decreases enabled.len() - i,
    {
        let name = enabled[i].as_str();
        let ghost prefix = enabled.deep_view().take(i + 1);
        proof {
            assert(prefix.drop_last() =~= enabled.deep_view().take(i as int));
            assert(prefix.last() == name@);
        }
        let builtin = crate::builder::keyed::str_eq(name, "image-optimize")
            || crate::builder::keyed::str_eq(name, "syntax-highlight")
            || crate::builder::keyed::str_eq(name, "toc")
            || crate::builder::keyed::str_eq(name, "search");
        if builtin {
            let ghost before = out.deep_view();
            let mut msg = "插件 '".to_owned();
            string_push_str(&mut msg, name);
            string_push_str(&mut msg, "' 已内置为核心功能，请从 [plugins] enabled 中移除。可通过 [features.");
            let sec = section_of(name);
            crate::text::push_all(&mut msg, &sec);
            string_push_str(&mut msg, "] enabled = false 禁用。");
            out.push(msg);
            assert(out.deep_view() =~= before.push(builtin_warning(name@)));
        }
        i += 1;
    }
    assert(enabled.deep_view().take(enabled.len() as int) =~= enabled.deep_view());
    out
}

/// The template of each page with its URL, in order.
pub open spec fn page_templates(pages: Seq<PageSpec>) -> Seq<(Seq<char>, Seq<char>)> {
    pages.map_values(|p: PageSpec| (p.template@, p.url@))
}

/// The dependency map after recording, from nothing, that each page of `ps`
/// (template, URL) used its template, in order.
pub open spec fn deps_from(ps: Seq<(Seq<char>, Seq<char>)>) -> Map<Seq<char>, Seq<Seq<char>>>
    decreases ps.len(),
{
    if ps.len() == 0 {
        Map::empty()
    } else {
        with_dependency(deps_from(ps.drop_last()), ps.last().0, ps.last().1)
    }
}

/// Rebuilds the dependency graph from the generated pages: cleared, then
/// each page recorded under its template.
pub fn record_page_dependencies(graph: &mut DepGraph, pages: &Vec<PageSpec>)
    ensures
        final(graph)@ == deps_from(page_templates(pages@)),
        final(graph).path() == old(graph).path(),
{
    graph.clear();
    let mut i: usize = 0;
    assert(page_templates(pages@).take(0) =~= Seq::<(Seq<char>, Seq<char>)>::empty());
    assert(graph@ =~= deps_from(page_templates(pages@).take(0)));
    while i < pages.len()
        invariant
            i <= pages.len(),
            graph@ == deps_from(page_templates(pages@).take(i as int)),
            graph.path() == old(graph).path(),
        decreases pages.len() - i,
    {
        let ghost prefix = page_templates(pages@).take(i + 1);
        proof {
            assert(prefix.drop_last() =~= page_templates(pages@).take(i as int));
            assert(prefix.last() == (pages@[i as int].template@, pages@[i as int].url@));
        }
        graph.add_dependency(pages[i].template.as_str(), pages[i].url.as_str());
        i += 1;
    }
    assert(page_templates(pages@).take(pages.len() as int) =~= page_templates(pages@));
}

/// The counts of a build that found nothing changed: every page cached.
pub fn unchanged_build_stats(total_pages: usize) -> (r: BuildStats)
    ensures
        r.total_pages == total_pages,
        r.rebuilt == 0,
        r.cached == total_pages,
{
    BuildStats { total_pages, rebuilt: 0, cached: total_pages }
}

/// The pages to render out of the pages with URLs `urls` (see
/// `select_pages`) and the counts of the build: all pages, those rendered,
/// and those left to the cache.
pub fn render_plan(urls: &Vec<String>, rebuild: Option<Vec<String>>) -> (r: (Vec<usize>, BuildStats))
    ensures
        r.0@.map_values(|i: usize| i as int) == selected_pages(
            urls.deep_view(),
            crate::lua::sandbox::opt_deep(rebuild),
        ),
        r.1.total_pages == urls.len(),
        r.1.rebuilt == r.0.len(),
        r.1.cached == urls.len() - r.0.len(),
{
    let (picked, cached) = select_pages(urls, rebuild);
    let rebuilt = picked.len();
    (picked, BuildStats { total_pages: urls.len(), rebuilt, cached })
}

} // verus!
