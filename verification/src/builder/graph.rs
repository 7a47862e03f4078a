//! The template dependency graph: for each template, the pages that used it.
use crate::builder::keyed::{
    keys_distinct, lemma_map_of_dom, lemma_map_of_lookup, lemma_map_of_update, map_of, str_eq,
};
use vstd::prelude::*;

verus! {

/// The entries of a dependency list as (template, page URLs).
pub open spec fn dep_entries(d: Seq<(String, Vec<String>)>) -> Seq<(Seq<char>, Seq<Seq<char>>)> {
    d.map_values(|e: (String, Vec<String>)| (e.0@, e.1.deep_view()))
}

/// The pages recorded for `template` in `m`, none if it has no entry.
pub open spec fn pages_of(m: Map<Seq<char>, Seq<Seq<char>>>, template: Seq<char>) -> Seq<Seq<char>> {
    if m.contains_key(template) {
        m[template]
    } else {
        Seq::empty()
    }
}

/// `m` after recording that `page` used `template`.
pub open spec fn with_dependency(
    m: Map<Seq<char>, Seq<Seq<char>>>,
    template: Seq<char>,
    page: Seq<char>,
) -> Map<Seq<char>, Seq<Seq<char>>> {
    m.insert(template, pages_of(m, template).push(page))
}

/// Records, for each template, the URLs of the pages rendered with it.
pub struct DepGraph {
    deps: Vec<(String, Vec<String>)>,
    cache_path: String,
}

impl View for DepGraph {
    type V = Map<Seq<char>, Seq<Seq<char>>>;

    closed spec fn view(&self) -> Map<Seq<char>, Seq<Seq<char>>> {
        map_of(dep_entries(self.deps@))
    }
}

/// A copy of a list of strings.
pub fn clone_strings(v: &Vec<String>) -> (r: Vec<String>)
    ensures
        r.deep_view() == v.deep_view(),
{
    let mut r: Vec<String> = Vec::new();
    let mut i: usize = 0;
    while i < v.len()
        invariant
            i <= v.len(),
            r.deep_view() == v.deep_view().take(i as int),
        decreases v.len() - i,
    {
        let ghost before = r.deep_view();
        r.push(v[i].clone());
        assert(r.deep_view() =~= before.push(v@[i as int]@));
        assert(v.deep_view().take(i + 1) =~= v.deep_view().take(i as int).push(v@[i as int]@));
        i += 1;
    }
    assert(v.deep_view().take(v.len() as int) == v.deep_view());
    r
}

/// The position of `key` among the keys of `d`, if it is there.
fn find_dep(d: &Vec<(String, Vec<String>)>, key: &str) -> (r: Option<usize>)
    ensures
        match r {
            Some(i) => i < d.len() && d@[i as int].0@ == key@,
            None => forall|i: int| 0 <= i < d.len() ==> d@[i].0@ != key@,
        },
{
    let mut i: usize = 0;
    while i < d.len()
        invariant
            i <= d.len(),
            forall|j: int| 0 <= j < i ==> d@[j].0@ != key@,
        decreases d.len() - i,
    {
        if str_eq(d[i].0.as_str(), key) {
            return Some(i);
        }
        i += 1;
    }
    None
}

/// Sets the pages of `key` in `d` to `pages`.
fn put_dep(d: &mut Vec<(String, Vec<String>)>, key: String, pages: Vec<String>)
    requires
        keys_distinct(dep_entries(old(d)@)),
    ensures
        keys_distinct(dep_entries(final(d)@)),
        map_of(dep_entries(final(d)@)) == map_of(dep_entries(old(d)@)).insert(key@, pages.deep_view()),
{
    let ghost s = dep_entries(d@);
    let ghost newv = pages.deep_view();
    match find_dep(d, key.as_str()) {
        Some(i) => {
            d.set(i, (key, pages));
            proof {
                lemma_map_of_update(s, i as int, newv);
                assert(dep_entries(d@) =~= s.update(i as int, (s[i as int].0, newv)));
            }
        },
        None => {
            let ghost k = key@;
            d.push((key, pages));
            proof {
                assert(dep_entries(d@) =~= s.push((k, newv)));
                assert(dep_entries(d@).drop_last() == s);
                assert forall|a: int, b: int| 0 <= a < b < dep_entries(d@).len() implies (
                #[trigger] dep_entries(d@)[a]).0 != (#[trigger] dep_entries(d@)[b]).0 by {
                    if b == s.len() {
                        assert(s[a].0 == d@[a].0@);
                    }
                }
            }
        },
    }
}

impl DepGraph {
    #[verifier::type_invariant]
    spec fn keys_unique(&self) -> bool {
        keys_distinct(dep_entries(self.deps@))
    }

    /// Where the graph is kept between builds.
    pub closed spec fn path(&self) -> Seq<char> {
        self.cache_path@
    }

    /// An empty graph kept at `cache_path`.
    pub fn new(cache_path: String) -> (r: Self)
        ensures
            r@ == Map::<Seq<char>, Seq<Seq<char>>>::empty(),
            r.path() == cache_path@,
    {
        let r = DepGraph { deps: Vec::new(), cache_path };
        assert(dep_entries(r.deps@) =~= Seq::<(Seq<char>, Seq<Seq<char>>)>::empty());
        r
    }

    /// A graph kept at `cache_path` holding `entries`; of two entries for
    /// one template the later wins.
    pub fn from_entries(cache_path: String, entries: Vec<(String, Vec<String>)>) -> (r: Self)
        ensures
            r@ == map_of(dep_entries(entries@)),
            r.path() == cache_path@,
    {
        let mut d: Vec<(String, Vec<String>)> = Vec::new();
        let ghost s = dep_entries(entries@);
        assert(dep_entries(d@) =~= Seq::<(Seq<char>, Seq<Seq<char>>)>::empty());
        assert(s.take(0) =~= Seq::<(Seq<char>, Seq<Seq<char>>)>::empty());
        let mut i: usize = 0;
        while i < entries.len()
            invariant
                i <= entries.len(),
                s == dep_entries(entries@),
                keys_distinct(dep_entries(d@)),
                map_of(dep_entries(d@)) == map_of(s.take(i as int)),
            decreases entries.len() - i,
        {
            let key = entries[i].0.clone();
            let pages = clone_strings(&entries[i].1);
            put_dep(&mut d, key, pages);
            assert(s.take(i + 1).drop_last() == s.take(i as int));
            i += 1;
        }
        assert(s.take(entries.len() as int) == s);
        DepGraph { deps: d, cache_path }
    }

    /// The entries of the graph, one per template.
    pub fn entries(&self) -> (r: Vec<(String, Vec<String>)>)
        ensures
            map_of(dep_entries(r@)) == self@,
            keys_distinct(dep_entries(r@)),
    {
        proof {
            use_type_invariant(self);
        }
        let mut r: Vec<(String, Vec<String>)> = Vec::new();
        let ghost s = dep_entries(self.deps@);
        let mut i: usize = 0;
        while i < self.deps.len()
            invariant
                i <= self.deps.len(),
                s == dep_entries(self.deps@),
                keys_distinct(s),
                dep_entries(r@) == s.take(i as int),
            decreases self.deps.len() - i,
        {
            let ghost before = dep_entries(r@);
            r.push((self.deps[i].0.clone(), clone_strings(&self.deps[i].1)));
            assert(dep_entries(r@) =~= before.push(s[i as int]));
            assert(s.take(i + 1) =~= s.take(i as int).push(s[i as int]));
            i += 1;
        }
        assert(s.take(self.deps.len() as int) == s);
        r
    }

    /// Where the graph is kept between builds.
    pub fn cache_path(&self) -> (r: String)
        ensures
            r@ == self.path(),
    {
        self.cache_path.clone()
    }

    /// Records that the page at `page_url` was rendered with `template`.
    pub fn add_dependency(&mut self, template: &str, page_url: &str)
        ensures
            final(self)@ == with_dependency(old(self)@, template@, page_url@),
            final(self).path() == old(self).path(),
    {
        proof {
            use_type_invariant(&*self);
        }
        let mut d: Vec<(String, Vec<String>)> = Vec::new();
        std::mem::swap(&mut d, &mut self.deps);
        let ghost s = dep_entries(d@);
        match find_dep(&d, template) {
            Some(i) => {
                let mut pages = clone_strings(&d[i].1);
                pages.push(page_url.to_owned());
                let key = d[i].0.clone();
                let ghost newv = pages.deep_view();
                assert(newv =~= s[i as int].1.push(page_url@));
                d.set(i, (key, pages));
                proof {
                    lemma_map_of_lookup(s, i as int);
                    lemma_map_of_update(s, i as int, newv);
                    assert(dep_entries(d@) =~= s.update(i as int, (s[i as int].0, newv)));
                }
            },
            None => {
                let mut pages: Vec<String> = Vec::new();
                pages.push(page_url.to_owned());
                let ghost newv = pages.deep_view();
                assert(newv =~= Seq::<Seq<char>>::empty().push(page_url@));
                d.push((template.to_owned(), pages));
                proof {
                    lemma_map_of_dom(s, template@);
                    assert(dep_entries(d@) =~= s.push((template@, newv)));
                    assert(dep_entries(d@).drop_last() == s);
                    assert forall|a: int, b: int| 0 <= a < b < dep_entries(d@).len() implies (
                    #[trigger] dep_entries(d@)[a]).0 != (#[trigger] dep_entries(d@)[b]).0 by {
                        if b == s.len() {
                            assert(s[a].0 == d@[a].0@);
                        }
                    }
                }
            },
        }
        self.deps = d;
    }

    /// The URLs of the pages rendered with `template`, in the order recorded.
    pub fn get_affected_pages(&self, template: &str) -> (r: Vec<String>)
        ensures
            r.deep_view() == pages_of(self@, template@),
    {
        proof {
            use_type_invariant(self);
        }
        let ghost s = dep_entries(self.deps@);
        match find_dep(&self.deps, template) {
            Some(i) => {
                proof {
                    lemma_map_of_lookup(s, i as int);
                }
                clone_strings(&self.deps[i].1)
            },
            None => {
                proof {
                    lemma_map_of_dom(s, template@);
                }
                Vec::new()
            },
        }
    }

    /// Forgets every dependency.
    pub fn clear(&mut self)
        ensures
            final(self)@ == Map::<Seq<char>, Seq<Seq<char>>>::empty(),
            final(self).path() == old(self).path(),
    {
        self.deps = Vec::new();
        assert(dep_entries(self.deps@) =~= Seq::<(Seq<char>, Seq<Seq<char>>)>::empty());
    }
}

/// Recording a dependency adds the page at the end of its template's pages
/// and leaves every other template's pages as they were.
pub proof fn law_add_dependency_records(
    m: Map<Seq<char>, Seq<Seq<char>>>,
    template: Seq<char>,
    page: Seq<char>,
    other: Seq<char>,
)
    ensures
        pages_of(with_dependency(m, template, page), template) == pages_of(m, template).push(page),
        other != template ==> pages_of(with_dependency(m, template, page), other) == pages_of(
            m,
            other,
        ),
{
}

/// A cleared graph names no page for any template.
pub proof fn law_cleared_graph_is_empty(template: Seq<char>)
    ensures
        pages_of(Map::<Seq<char>, Seq<Seq<char>>>::empty(), template) == Seq::<Seq<char>>::empty(),
{
}

} // verus!
