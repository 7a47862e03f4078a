//! The content-hash cache behind incremental builds.
use crate::builder::keyed::{
    keys_distinct, lemma_map_of_dom, lemma_map_of_lookup, lemma_map_of_update, map_of, str_eq,
};
use crate::digest::{hex_of, sha256_hex, sha256_of};
use crate::text::{chars_of, starts_with, starts_with_at, string_push_str};
use vstd::prelude::*;

verus! {

/// Page counts of a build.
#[derive(Debug, Default, Clone)]
pub struct BuildStats {
    pub total_pages: usize,
    pub rebuilt: usize,
    pub cached: usize,
}

/// The entries of a hash list as (key, hash).
pub open spec fn hash_entries(d: Seq<(String, String)>) -> Seq<(Seq<char>, Seq<char>)> {
    d.map_values(|e: (String, String)| (e.0@, e.1@))
}

/// Whether `key` counts as changed in `m` given its current hash: it has no
/// hash recorded or a different one.
pub open spec fn changed_spec(m: Map<Seq<char>, Seq<char>>, key: Seq<char>, hash: Seq<char>) -> bool {
    !(m.contains_key(key) && m[key] == hash)
}

/// The cache key of a template.
pub open spec fn template_key(name: Seq<char>) -> Seq<char> {
    "template:"@ + name
}

/// The names among `t` (template name, hash) whose template has changed in
/// `m`, in order.
pub open spec fn changed_names(m: Map<Seq<char>, Seq<char>>, t: Seq<(Seq<char>, Seq<char>)>) -> Seq<
    Seq<char>,
>
    decreases t.len(),
{
    if t.len() == 0 {
        Seq::empty()
    } else {
        let rest = changed_names(m, t.drop_last());
        if changed_spec(m, template_key(t.last().0), t.last().1) {
            rest.push(t.last().0)
        } else {
            rest
        }
    }
}

/// `m` with the hash of each template of `t` recorded, in order.
pub open spec fn with_templates(m: Map<Seq<char>, Seq<char>>, t: Seq<(Seq<char>, Seq<char>)>) -> Map<
    Seq<char>,
    Seq<char>,
>
    decreases t.len(),
{
    if t.len() == 0 {
        m
    } else {
        with_templates(m, t.drop_last()).insert(template_key(t.last().0), t.last().1)
    }
}

/// SHA-256 hashes of sources, keyed by relative path (`post:<slug>`,
/// `template:<name>`, `cblog.toml`, `theme.toml`).
pub struct HashCache {
    hashes: Vec<(String, String)>,
    cache_path: String,
}

impl View for HashCache {
    type V = Map<Seq<char>, Seq<char>>;

    closed spec fn view(&self) -> Map<Seq<char>, Seq<char>> {
        map_of(hash_entries(self.hashes@))
    }
}

fn find_hash(d: &Vec<(String, String)>, key: &str) -> (r: Option<usize>)
    ensures
        match r {
            Some(i) => i < d.len() && d@[i as int].0@ == key@,
            None => forall|i: int| 0 <= i < d.len() ==> d@[i].0@ != key@,
        },
{
    let mut i: usize = 0;
    while i < d.len()
        invariant
            i <= d.len(),
            forall|j: int| 0 <= j < i ==> d@[j].0@ != key@,
        decreases d.len() - i,
    {
        if str_eq(d[i].0.as_str(), key) {
            return Some(i);
        }
        i += 1;
    }
    None
}

fn put_hash(d: &mut Vec<(String, String)>, key: String, hash: String)
    requires
        keys_distinct(hash_entries(old(d)@)),
    ensures
        keys_distinct(hash_entries(final(d)@)),
        map_of(hash_entries(final(d)@)) == map_of(hash_entries(old(d)@)).insert(key@, hash@),
{
    let ghost s = hash_entries(d@);
    let ghost hv = hash@;
    match find_hash(d, key.as_str()) {
        Some(i) => {
            d.set(i, (key, hash));
            proof {
                lemma_map_of_update(s, i as int, hv);
                assert(hash_entries(d@) =~= s.update(i as int, (s[i as int].0, hv)));
            }
        },
        None => {
            let ghost k = key@;
            d.push((key, hash));
            proof {
                assert(hash_entries(d@) =~= s.push((k, hv)));
                assert(hash_entries(d@).drop_last() == s);
                assert forall|a: int, b: int| 0 <= a < b < hash_entries(d@).len() implies (
                #[trigger] hash_entries(d@)[a]).0 != (#[trigger] hash_entries(d@)[b]).0 by {
                    if b == s.len() {
                        assert(s[a].0 == d@[a].0@);
                    }
                }
            }
        },
    }
}

/// `"template:"` followed by `name`.
fn template_key_exec(name: &str) -> (r: String)
    ensures
        r@ == template_key(name@),
{
    let mut k = "template:".to_owned();
    string_push_str(&mut k, name);
    k
}

impl HashCache {
    #[verifier::type_invariant]
    spec fn keys_unique(&self) -> bool {
        keys_distinct(hash_entries(self.hashes@))
    }

    /// Where the cache is kept between builds.
    pub closed spec fn path(&self) -> Seq<char> {
        self.cache_path@
    }

    /// An empty cache kept at `cache_path`.
    pub fn new(cache_path: String) -> (r: Self)
        ensures
            r@ == Map::<Seq<char>, Seq<char>>::empty(),
            r.path() == cache_path@,
    {
        let r = HashCache { hashes: Vec::new(), cache_path };
        assert(hash_entries(r.hashes@) =~= Seq::<(Seq<char>, Seq<char>)>::empty());
        r
    }

    /// A cache kept at `cache_path` holding `entries`; of two entries for one
    /// key the later wins.
    pub fn from_entries(cache_path: String, entries: Vec<(String, String)>) -> (r: Self)
        ensures
            r@ == map_of(hash_entries(entries@)),
            r.path() == cache_path@,
    {
        let mut d: Vec<(String, String)> = Vec::new();
        let ghost s = hash_entries(entries@);
        assert(hash_entries(d@) =~= Seq::<(Seq<char>, Seq<char>)>::empty());
        assert(s.take(0) =~= Seq::<(Seq<char>, Seq<char>)>::empty());
        let mut i: usize = 0;
        while i < entries.len()
            invariant
                i <= entries.len(),
                s == hash_entries(entries@),
                keys_distinct(hash_entries(d@)),
                map_of(hash_entries(d@)) == map_of(s.take(i as int)),
            decreases entries.len() - i,
        {
            put_hash(&mut d, entries[i].0.clone(), entries[i].1.clone());
            assert(s.take(i + 1).drop_last() == s.take(i as int));
            i += 1;
        }
        assert(s.take(entries.len() as int) == s);
        HashCache { hashes: d, cache_path }
    }

    /// The entries of the cache, one per key.
    pub fn entries(&self) -> (r: Vec<(String, String)>)
        ensures
            map_of(hash_entries(r@)) == self@,
            keys_distinct(hash_entries(r@)),
    {
        proof {
            use_type_invariant(self);
        }
        let mut r: Vec<(String, String)> = Vec::new();
        let ghost s = hash_entries(self.hashes@);
        let mut i: usize = 0;
        while i < self.hashes.len()
            invariant
                i <= self.hashes.len(),
                s == hash_entries(self.hashes@),
                keys_distinct(s),
                hash_entries(r@) == s.take(i as int),
            decreases self.hashes.len() - i,
        {
            let ghost before = hash_entries(r@);
            r.push((self.hashes[i].0.clone(), self.hashes[i].1.clone()));
            assert(hash_entries(r@) =~= before.push(s[i as int]));
            assert(s.take(i + 1) =~= s.take(i as int).push(s[i as int]));
            i += 1;
        }
        assert(s.take(self.hashes.len() as int) == s);
        r
    }

    /// Where the cache is kept between builds.
    pub fn cache_path(&self) -> (r: String)
        ensures
            r@ == self.path(),
    {
        self.cache_path.clone()
    }

    /// The lowercase hexadecimal SHA-256 hash of `data`.
    pub fn hash_bytes(data: &[u8]) -> (r: String)
        ensures
            r@ == hex_of(sha256_of(data@)),
    {
        sha256_hex(data)
    }

    /// Whether the file at `relative_path` changed: its hash is not cached or
    /// differs from `current_hash`.
    pub fn has_changed(&self, relative_path: &str, current_hash: &str) -> (r: bool)
        ensures
            r == changed_spec(self@, relative_path@, current_hash@),
    {
        proof {
            use_type_invariant(self);
        }
        let ghost s = hash_entries(self.hashes@);
        match find_hash(&self.hashes, relative_path) {
            Some(i) => {
                proof {
                    lemma_map_of_lookup(s, i as int);
                }
                !str_eq(self.hashes[i].1.as_str(), current_hash)
            },
            None => {
                proof {
                    lemma_map_of_dom(s, relative_path@);
                }
                true
            },
        }
    }

    /// Records the hash of the file at `relative_path`.
    pub fn update(&mut self, relative_path: String, hash: String)
        ensures
            final(self)@ == old(self)@.insert(relative_path@, hash@),
            final(self).path() == old(self).path(),
    {
        proof {
            use_type_invariant(&*self);
        }
        let mut d: Vec<(String, String)> = Vec::new();
        std::mem::swap(&mut d, &mut self.hashes);
        put_hash(&mut d, relative_path, hash);
        self.hashes = d;
    }

    /// Whether the project configuration changed, given the hash of
    /// `cblog.toml` (`None` when the file does not exist).
    pub fn config_changed(&self, config_hash: Option<&str>) -> (r: bool)
        ensures
            r == match config_hash {
                Some(h) => changed_spec(self@, "cblog.toml"@, h@),
                None => false,
            },
    {
        match config_hash {
            Some(h) => self.has_changed("cblog.toml", h),
            None => false,
        }
    }

    /// The templates, given with their current hashes, whose hash changed.
    pub fn changed_templates(&self, templates: &Vec<(String, String)>) -> (r: Vec<String>)
        ensures
            r.deep_view() == changed_names(self@, hash_entries(templates@)),
    {
        let ghost t = hash_entries(templates@);
        let mut changed: Vec<String> = Vec::new();
        let mut i: usize = 0;
        while i < templates.len()
            invariant
                i <= templates.len(),
                t == hash_entries(templates@),
                changed.deep_view() == changed_names(self@, t.take(i as int)),
            decreases templates.len() - i,
        {
            let key = template_key_exec(templates[i].0.as_str());
            let ghost before = changed.deep_view();
            if self.has_changed(key.as_str(), templates[i].1.as_str()) {
                changed.push(templates[i].0.clone());
                assert(changed.deep_view() =~= before.push(t[i as int].0));
            }
            assert(t.take(i + 1).drop_last() == t.take(i as int));
            i += 1;
        }
        assert(t.take(templates.len() as int) == t);
        changed
    }

    /// Records the current hash of each template.
    pub fn update_templates(&mut self, templates: &Vec<(String, String)>)
        ensures
            final(self)@ == with_templates(old(self)@, hash_entries(templates@)),
            final(self).path() == old(self).path(),
    {
        let ghost t = hash_entries(templates@);
        let ghost m0 = self@;
        let mut i: usize = 0;
        while i < templates.len()
            invariant
                i <= templates.len(),
                t == hash_entries(templates@),
                self@ == with_templates(m0, t.take(i as int)),
                self.path() == old(self).path(),
            decreases templates.len() - i,
        {
            let key = template_key_exec(templates[i].0.as_str());
            self.update(key, templates[i].1.clone());
            assert(t.take(i + 1).drop_last() == t.take(i as int));
            i += 1;
        }
        assert(t.take(templates.len() as int) == t);
    }

    /// The cached keys of posts (those starting with `post:`), each once.
    pub fn cached_post_keys(&self) -> (r: Vec<String>)
        ensures
            r.deep_view().no_duplicates(),
            forall|k: Seq<char>|
                r.deep_view().contains(k) <==> (self@.contains_key(k) && starts_with(k, "post:"@)),
    {
        proof {
            use_type_invariant(self);
        }
        let ghost s = hash_entries(self.hashes@);
        let prefix = chars_of("post:");
        let mut r: Vec<String> = Vec::new();
        let mut i: usize = 0;
        while i < self.hashes.len()
            invariant
                i <= self.hashes.len(),
                s == hash_entries(self.hashes@),
                keys_distinct(s),
                prefix@ == "post:"@,
                r.deep_view().no_duplicates(),
                forall|k: Seq<char>|
                    r.deep_view().contains(k) <==> (exists|j: int|
                        0 <= j < i && (#[trigger] s[j]).0 == k && starts_with(k, "post:"@)),
            decreases self.hashes.len() - i,
        {
            let kv = chars_of(self.hashes[i].0.as_str());
            assert(kv@.subrange(0, kv@.len() as int) == kv@);
            let ghost before = r.deep_view();
            let ghost ki = s[i as int].0;
            if starts_with_at(&kv, 0, kv.len(), &prefix) {
                r.push(self.hashes[i].0.clone());
                proof {
                    assert(r.deep_view() =~= before.push(ki));
                    assert forall|a: int| 0 <= a < before.len() implies before[a] != ki by {
                        assert(before.contains(before[a]));
                        let j = choose|j: int|
                            0 <= j < i && (#[trigger] s[j]).0 == before[a] && starts_with(
                                before[a],
                                "post:"@,
                            );
                        assert(s[j].0 != s[i as int].0);
                    }
                }
            }
            proof {
                assert forall|k: Seq<char>|
                    r.deep_view().contains(k) <==> (exists|j: int|
                        0 <= j < i + 1 && (#[trigger] s[j]).0 == k && starts_with(k, "post:"@)) by {
                    if k == ki && starts_with(k, "post:"@) {
                        assert(r.deep_view()[r.deep_view().len() - 1] == k);
                    }
                    if r.deep_view().contains(k) && !before.contains(k) {
                        assert(k == ki);
                    }
                    if exists|j: int| 0 <= j < i + 1 && (#[trigger] s[j]).0 == k && starts_with(k, "post:"@) {
                        let j = choose|j: int| 0 <= j < i + 1 && (#[trigger] s[j]).0 == k && starts_with(k, "post:"@);
                        if j < i {
                            assert(before.contains(k));
                            let a = choose|a: int| 0 <= a < before.len() && before[a] == k;
                            assert(r.deep_view()[a] == k);
                        }
                    }
                }
            }
            i += 1;
        }
        proof {
            assert forall|k: Seq<char>|
                r.deep_view().contains(k) <==> (self@.contains_key(k) && starts_with(k, "post:"@)) by {
                lemma_map_of_dom(s, k);
            }
        }
        r
    }
}

/// Recording a hash makes that file count as unchanged for that hash.
pub proof fn law_update_then_unchanged(m: Map<Seq<char>, Seq<char>>, key: Seq<char>, hash: Seq<char>)
    ensures
        !changed_spec(m.insert(key, hash), key, hash),
{
}

/// Recording a hash for one file leaves every other file's status as it was.
pub proof fn law_update_keeps_others(
    m: Map<Seq<char>, Seq<char>>,
    key: Seq<char>,
    hash: Seq<char>,
    other: Seq<char>,
    other_hash: Seq<char>,
)
    requires
        other != key,
    ensures
        changed_spec(m.insert(key, hash), other, other_hash) == changed_spec(m, other, other_hash),
{
}

proof fn lemma_template_key_injective(a: Seq<char>, b: Seq<char>)
    requires
        template_key(a) == template_key(b),
    ensures
        a == b,
{
    let p = "template:"@;
    assert(template_key(a).skip(p.len() as int) == a);
    assert(template_key(b).skip(p.len() as int) == b);
}

proof fn lemma_with_templates_lookup(m: Map<Seq<char>, Seq<char>>, t: Seq<(Seq<char>, Seq<char>)>, i: int)
    requires
        keys_distinct(t),
        0 <= i < t.len(),
    ensures
        with_templates(m, t).contains_key(template_key(t[i].0)),
        with_templates(m, t)[template_key(t[i].0)] == t[i].1,
    decreases t.len(),
{
    if i < t.len() - 1 {
        let u = t.drop_last();
        assert(u[i] == t[i]);
        assert forall|a: int, b: int| 0 <= a < b < u.len() implies (#[trigger] u[a]).0 != (
        #[trigger] u[b]).0 by {
            assert(u[a] == t[a] && u[b] == t[b]);
        }
        lemma_with_templates_lookup(m, u, i);
        if template_key(t[i].0) == template_key(t.last().0) {
            lemma_template_key_injective(t[i].0, t.last().0);
            assert(t[i].0 != t[t.len() - 1].0);
        }
    }
}

proof fn lemma_changed_names_empty(m: Map<Seq<char>, Seq<char>>, t: Seq<(Seq<char>, Seq<char>)>)
    requires
        forall|j: int| 0 <= j < t.len() ==> !changed_spec(m, template_key(#[trigger] t[j].0), t[j].1),
    ensures
        changed_names(m, t) == Seq::<Seq<char>>::empty(),
    decreases t.len(),
{
    if t.len() > 0 {
        let u = t.drop_last();
        assert forall|j: int| 0 <= j < u.len() implies !changed_spec(
            m,
            template_key(#[trigger] u[j].0),
            u[j].1,
        ) by {
            assert(u[j] == t[j]);
        }
        lemma_changed_names_empty(m, u);
        assert(!changed_spec(m, template_key(t[t.len() - 1].0), t[t.len() - 1].1));
    }
}

/// Once the hashes of a list of distinct templates are recorded, none of
/// those templates counts as changed for the same hashes.
pub proof fn law_updated_templates_unchanged(m: Map<Seq<char>, Seq<char>>, t: Seq<(Seq<char>, Seq<char>)>)
    requires
        keys_distinct(t),
    ensures
        changed_names(with_templates(m, t), t) == Seq::<Seq<char>>::empty(),
{
    assert forall|j: int| 0 <= j < t.len() implies !changed_spec(
        with_templates(m, t),
        template_key(#[trigger] t[j].0),
        t[j].1,
    ) by {
        lemma_with_templates_lookup(m, t, j);
    }
    lemma_changed_names_empty(with_templates(m, t), t);
}

} // verus!
