//! The taxonomy stage: posts indexed by tag, by category and by month.
use crate::builder::keyed::str_eq;
use crate::content::{PostRef, TaxonomyIndex};
use crate::text::opt_view;
use vstd::prelude::*;

verus! {

/// Two post references with the same content.
pub open spec fn same_ref(a: PostRef, b: PostRef) -> bool {
    &&& a.id@ == b.id@
    &&& a.slug@ == b.slug@
    &&& a.title@ == b.title@
    &&& a.url@ == b.url@
    &&& opt_view(a.excerpt) == opt_view(b.excerpt)
    &&& opt_view(a.cover_image) == opt_view(b.cover_image)
    &&& a.created_at@ == b.created_at@
    &&& a.tags.deep_view() == b.tags.deep_view()
    &&& opt_view(a.category) == opt_view(b.category)
    &&& a.reading_time == b.reading_time
}

/// Two lists of post references with the same contents, in order.
pub open spec fn same_refs(a: Seq<PostRef>, b: Seq<PostRef>) -> bool {
    a.len() == b.len() && forall|j: int| 0 <= j < a.len() ==> same_ref(#[trigger] a[j], b[j])
}

/// A group list as (name, posts).
pub open spec fn named_groups(v: Seq<(String, Vec<PostRef>)>) -> Seq<(Seq<char>, Seq<PostRef>)> {
    v.map_values(|e: (String, Vec<PostRef>)| (e.0@, e.1@))
}

/// Two group lists with the same names and the same posts.
pub open spec fn same_groups<K>(a: Seq<(K, Seq<PostRef>)>, b: Seq<(K, Seq<PostRef>)>) -> bool {
    a.len() == b.len() && forall|g: int|
        0 <= g < a.len() ==> (#[trigger] a[g]).0 == b[g].0 && same_refs(a[g].1, b[g].1)
}

/// (tag, post) for every tag of every post, in order.
pub open spec fn tag_pairs(posts: Seq<(PostRef, i32, u32)>) -> Seq<(Seq<char>, PostRef)>
    decreases posts.len(),
{
    if posts.len() == 0 {
        Seq::empty()
    } else {
        let p = posts.last().0;
        tag_pairs(posts.drop_last()) + p.tags.deep_view().map_values(|t: Seq<char>| (t, p))
    }
}

/// (category, post) for every post that has a category, in order.
pub open spec fn category_pairs(posts: Seq<(PostRef, i32, u32)>) -> Seq<(Seq<char>, PostRef)>
    decreases posts.len(),
{
    if posts.len() == 0 {
        Seq::empty()
    } else {
        let p = posts.last().0;
        match opt_view(p.category) {
            Some(c) => category_pairs(posts.drop_last()).push((c, p)),
            None => category_pairs(posts.drop_last()),
        }
    }
}

/// The position of the group `k` in `groups`, the first if several.
pub open spec fn key_index<K>(groups: Seq<(K, Seq<PostRef>)>, k: K) -> Option<int>
    decreases groups.len(),
{
    if groups.len() == 0 {
        None
    } else {
        match key_index(groups.drop_last(), k) {
            Some(j) => Some(j),
            None => if groups.last().0 == k {
                Some(groups.len() - 1)
            } else {
                None
            },
        }
    }
}

/// Posts grouped by name: groups in the order their names first occur,
/// each with its posts in order.
pub open spec fn group_pairs(pairs: Seq<(Seq<char>, PostRef)>) -> Seq<(Seq<char>, Seq<PostRef>)>
    decreases pairs.len(),
{
    if pairs.len() == 0 {
        Seq::empty()
    } else {
        let prev = group_pairs(pairs.drop_last());
        let (k, p) = pairs.last();
        match key_index(prev, k) {
            Some(j) => prev.update(j, (k, prev[j].1.push(p))),
            None => prev.push((k, seq![p])),
        }
    }
}

/// Whether month `a` comes before month `b`.
pub open spec fn month_lt(a: (i32, u32), b: (i32, u32)) -> bool {
    a.0 < b.0 || (a.0 == b.0 && a.1 < b.1)
}

/// `e` placed into `s` after every group whose month is not later.
pub open spec fn insert_month(s: Seq<((i32, u32), Seq<PostRef>)>, e: ((i32, u32), Seq<PostRef>)) -> Seq<
    ((i32, u32), Seq<PostRef>),
>
    decreases s.len(),
{
    if s.len() == 0 {
        seq![e]
    } else if month_lt(e.0, s.last().0) {
        insert_month(s.drop_last(), e).push(s.last())
    } else {
        s.push(e)
    }
}

/// Posts grouped by (year, month) in ascending order, each month with its
/// posts in order.
pub open spec fn month_groups(posts: Seq<(PostRef, i32, u32)>) -> Seq<((i32, u32), Seq<PostRef>)>
    decreases posts.len(),
{
    if posts.len() == 0 {
        Seq::empty()
    } else {
        let prev = month_groups(posts.drop_last());
        let (p, y, m) = posts.last();
        match key_index(prev, (y, m)) {
            Some(j) => prev.update(j, ((y, m), prev[j].1.push(p))),
            None => insert_month(prev, ((y, m), seq![p])),
        }
    }
}

proof fn lemma_key_index<K>(groups: Seq<(K, Seq<PostRef>)>, k: K)
    ensures
        match key_index(groups, k) {
            Some(j) => 0 <= j < groups.len() && groups[j].0 == k && forall|i: int|
                0 <= i < j ==> #[trigger] groups[i].0 != k,
            None => forall|i: int| 0 <= i < groups.len() ==> #[trigger] groups[i].0 != k,
        },
    decreases groups.len(),
{
    if groups.len() > 0 {
        let d = groups.drop_last();
        lemma_key_index(d, k);
        match key_index(d, k) {
            Some(j) => {
                assert(groups[j] == d[j]);
                assert forall|i: int| 0 <= i < j implies #[trigger] groups[i].0 != k by {
                    assert(groups[i] == d[i]);
                }
            },
            None => {
                assert forall|i: int| 0 <= i < groups.len() - 1 implies #[trigger] groups[i].0 != k by {
                    assert(groups[i] == d[i]);
                }
            },
        }
    }
}

/// A copy of an optional string.
fn clone_opt(o: &Option<String>) -> (r: Option<String>)
    ensures
        opt_view(r) == opt_view(*o),
{
    match o {
        Some(s) => Some(s.clone()),
        None => None,
    }
}

/// A copy of a post reference.
pub fn clone_ref(p: &PostRef) -> (r: PostRef)
    ensures
        same_ref(r, *p),
{
    PostRef {
        id: p.id.clone(),
        slug: p.slug.clone(),
        title: p.title.clone(),
        url: p.url.clone(),
        excerpt: clone_opt(&p.excerpt),
        cover_image: clone_opt(&p.cover_image),
        created_at: p.created_at.clone(),
        tags: crate::builder::graph::clone_strings(&p.tags),
        category: clone_opt(&p.category),
        reading_time: p.reading_time,
    }
}

/// Adds `p` to the group `key` of `groups`, opening the group at the end
/// if it is new.
fn add_named(groups: &mut Vec<(String, Vec<PostRef>)>, key: &String, p: &PostRef, Ghost(spec): Ghost<
    Seq<(Seq<char>, Seq<PostRef>)>,
>)
    requires
        same_groups(named_groups(old(groups)@), spec),
    ensures
        same_groups(
            named_groups(final(groups)@),
            match key_index(spec, key@) {
                Some(j) => spec.update(j, (key@, spec[j].1.push(*p))),
                None => spec.push((key@, seq![*p])),
            },
        ),
{
    let ghost before = named_groups(groups@);
    proof {
        lemma_key_index(spec, key@);
        lemma_key_index(before, key@);
        assert forall|i: int| 0 <= i < before.len() implies (#[trigger] before[i]).0 == spec[i].0 by {}
    }
    let mut j: usize = 0;
    let mut found = false;
    while j < groups.len() && !found
        invariant
            j <= groups.len(),
            before == named_groups(groups@),
            same_groups(before, spec),
            found ==> j < groups.len() && before[j as int].0 == key@,
            forall|i: int| 0 <= i < j ==> #[trigger] before[i].0 != key@,
        decreases groups.len() - j + if found { 0int } else { 1int },
    {
        assert(before[j as int].0 == groups@[j as int].0@);
        if str_eq(groups[j].0.as_str(), key.as_str()) {
            found = true;
        } else {
            j += 1;
        }
    }
    if found {
        assert(key_index(spec, key@) == Some(j as int)) by {
            assert(spec[j as int].0 == key@);
            assert forall|i: int| 0 <= i < j implies #[trigger] spec[i].0 != key@ by {
                assert(before[i].0 == spec[i].0);
            }
        }
        let mut entry = (String::new(), Vec::new());
        std::mem::swap(&mut entry, &mut groups[j]);
        let ghost old_refs = entry.1@;
        entry.1.push(clone_ref(p));
        let ghost new_view = (entry.0@, entry.1@);
        groups.set(j, entry);
        proof {
            let target = spec.update(j as int, (key@, spec[j as int].1.push(*p)));
            let after = named_groups(groups@);
            assert(after =~= before.update(j as int, new_view));
            assert forall|g: int| 0 <= g < after.len() implies (#[trigger] after[g]).0 == target[g].0
                && same_refs(after[g].1, target[g].1) by {
                if g == j {
                    assert(old_refs == before[j as int].1);
                    assert forall|x: int| 0 <= x < after[g].1.len() implies same_ref(
                        #[trigger] after[g].1[x],
                        target[g].1[x],
                    ) by {
                        if x < old_refs.len() {
                            assert(after[g].1[x] == old_refs[x]);
                            assert(target[g].1[x] == spec[g].1[x]);
                        }
                    }
                }
            }
        }
    } else {
        assert(key_index(spec, key@) is None) by {
            assert forall|i: int| 0 <= i < spec.len() implies #[trigger] spec[i].0 != key@ by {
                assert(before[i].0 == spec[i].0);
            }
        }
        let mut refs: Vec<PostRef> = Vec::new();
        refs.push(clone_ref(p));
        let ghost new_view = (key@, refs@);
        groups.push((key.clone(), refs));
        proof {
            let target = spec.push((key@, seq![*p]));
            let after = named_groups(groups@);
            assert(after =~= before.push(new_view));
            assert forall|g: int| 0 <= g < after.len() implies (#[trigger] after[g]).0 == target[g].0
                && same_refs(after[g].1, target[g].1) by {
                if g == before.len() {
                    assert(same_ref(after[g].1[0], target[g].1[0]));
                }
            }
        }
    }
}

proof fn lemma_insert_month_at(s: Seq<((i32, u32), Seq<PostRef>)>, e: ((i32, u32), Seq<PostRef>), p: int)
    requires
        0 <= p <= s.len(),
        p == 0 || !month_lt(e.0, s[p - 1].0),
        forall|k: int| p <= k < s.len() ==> month_lt(e.0, #[trigger] s[k].0),
    ensures
        insert_month(s, e) == s.insert(p, e),
    decreases s.len(),
{
    if s.len() == 0 {
        assert(s.insert(p, e) =~= seq![e]);
    } else if p == s.len() {
        assert(s.insert(p, e) =~= s.push(e));
    } else {
        assert(month_lt(e.0, s[s.len() - 1].0));
        let d = s.drop_last();
        assert forall|k: int| p <= k < d.len() implies month_lt(e.0, #[trigger] d[k].0) by {
            assert(d[k] == s[k]);
        }
        if p > 0 {
            assert(d[p - 1] == s[p - 1]);
        }
        lemma_insert_month_at(d, e, p);
        assert(d.insert(p, e).push(s.last()) =~= s.insert(p, e));
    }
}

/// Adds `p` to the month `key` of `groups`, opening the month in its place
/// in ascending order if it is new.
fn add_month(groups: &mut Vec<((i32, u32), Vec<PostRef>)>, key: (i32, u32), p: &PostRef, Ghost(spec): Ghost<
    Seq<((i32, u32), Seq<PostRef>)>,
>)
    requires
        same_groups(old(groups)@.map_values(|e: ((i32, u32), Vec<PostRef>)| (e.0, e.1@)), spec),
    ensures
        same_groups(
            final(groups)@.map_values(|e: ((i32, u32), Vec<PostRef>)| (e.0, e.1@)),
            match key_index(spec, key) {
                Some(j) => spec.update(j, (key, spec[j].1.push(*p))),
                None => insert_month(spec, (key, seq![*p])),
            },
        ),
{
    let ghost before = groups@.map_values(|e: ((i32, u32), Vec<PostRef>)| (e.0, e.1@));
    proof {
        lemma_key_index(spec, key);
    }
    let mut j: usize = 0;
    let mut found = false;
    while j < groups.len() && !found
        invariant
            j <= groups.len(),
            before == groups@.map_values(|e: ((i32, u32), Vec<PostRef>)| (e.0, e.1@)),
            same_groups(before, spec),
            found ==> j < groups.len() && spec[j as int].0 == key,
            forall|i: int| 0 <= i < j ==> #[trigger] spec[i].0 != key,
        decreases groups.len() - j + if found { 0int } else { 1int },
    {
        assert(before[j as int].0 == groups@[j as int].0);
        if groups[j].0.0 == key.0 && groups[j].0.1 == key.1 {
            found = true;
        } else {
            j += 1;
        }
    }
    if found {
        assert(key_index(spec, key) == Some(j as int));
        let mut entry = ((0i32, 0u32), Vec::new());
        std::mem::swap(&mut entry, &mut groups[j]);
        let ghost old_refs = entry.1@;
        entry.1.push(clone_ref(p));
        let ghost new_view = (entry.0, entry.1@);
        groups.set(j, entry);
        proof {
            let target = spec.update(j as int, (key, spec[j as int].1.push(*p)));
            let after = groups@.map_values(|e: ((i32, u32), Vec<PostRef>)| (e.0, e.1@));
            assert(after =~= before.update(j as int, new_view));
            assert forall|g: int| 0 <= g < after.len() implies (#[trigger] after[g]).0 == target[g].0
                && same_refs(after[g].1, target[g].1) by {
                if g == j {
                    assert(old_refs == before[j as int].1);
                    assert forall|x: int| 0 <= x < after[g].1.len() implies same_ref(
                        #[trigger] after[g].1[x],
                        target[g].1[x],
                    ) by {
                        if x < old_refs.len() {
                            assert(after[g].1[x] == old_refs[x]);
                            assert(target[g].1[x] == spec[g].1[x]);
                        }
                    }
                }
            }
        }
    } else {
        assert(key_index(spec, key) is None);
        let mut pos: usize = groups.len();
        while pos > 0 && (key.0 < groups[pos - 1].0.0 || (key.0 == groups[pos - 1].0.0 && key.1
            < groups[pos - 1].0.1))
            invariant
                pos <= groups.len(),
                before == groups@.map_values(|e: ((i32, u32), Vec<PostRef>)| (e.0, e.1@)),
                same_groups(before, spec),
                forall|k: int| pos <= k < spec.len() ==> month_lt(key, #[trigger] spec[k].0),
            decreases pos,
        {
            assert(before[pos - 1].0 == groups@[pos - 1].0);
            pos -= 1;
        }
        if pos > 0 {
            assert(before[pos - 1].0 == groups@[pos - 1].0);
        }
        let mut refs: Vec<PostRef> = Vec::new();
        refs.push(clone_ref(p));
        let ghost new_view = (key, refs@);
        let ghost e = (key, seq![*p]);
        proof {
            lemma_insert_month_at(spec, e, pos as int);
        }
        groups.insert(pos, (key, refs));
        proof {
            let target = spec.insert(pos as int, e);
            let after = groups@.map_values(|e: ((i32, u32), Vec<PostRef>)| (e.0, e.1@));
            assert(after =~= before.insert(pos as int, new_view));
            assert forall|g: int| 0 <= g < after.len() implies (#[trigger] after[g]).0 == target[g].0
                && same_refs(after[g].1, target[g].1) by {
                if g < pos {
                    assert(after[g] == before[g] && target[g] == spec[g]);
                } else if g == pos {
                    assert(same_ref(after[g].1[0], target[g].1[0]));
                } else {
                    assert(after[g] == before[g - 1] && target[g] == spec[g - 1]);
                }
            }
        }
    }
}

/// Indexes posts (each with the year and month of its creation) by tag, by
/// category and by month.
pub fn build_taxonomy(posts: &Vec<(PostRef, i32, u32)>) -> (r: TaxonomyIndex)
    ensures
        same_groups(named_groups(r.tags@), group_pairs(tag_pairs(posts@))),
        same_groups(named_groups(r.categories@), group_pairs(category_pairs(posts@))),
        same_groups(
            r.archives@.map_values(|e: ((i32, u32), Vec<PostRef>)| (e.0, e.1@)),
            month_groups(posts@),
        ),
{
    let mut tags: Vec<(String, Vec<PostRef>)> = Vec::new();
    let mut categories: Vec<(String, Vec<PostRef>)> = Vec::new();
    let mut archives: Vec<((i32, u32), Vec<PostRef>)> = Vec::new();
    let mut i: usize = 0;
    assert(posts@.take(0) =~= Seq::<(PostRef, i32, u32)>::empty());
    assert(named_groups(tags@) =~= Seq::<(Seq<char>, Seq<PostRef>)>::empty());
    assert(named_groups(categories@) =~= Seq::<(Seq<char>, Seq<PostRef>)>::empty());
    assert(archives@.map_values(|e: ((i32, u32), Vec<PostRef>)| (e.0, e.1@)) =~= Seq::<
        ((i32, u32), Seq<PostRef>),
    >::empty());
    while i < posts.len()
        invariant
            i <= posts.len(),
            same_groups(named_groups(tags@), group_pairs(tag_pairs(posts@.take(i as int)))),
            same_groups(named_groups(categories@), group_pairs(category_pairs(posts@.take(i as int)))),
            same_groups(
                archives@.map_values(|e: ((i32, u32), Vec<PostRef>)| (e.0, e.1@)),
                month_groups(posts@.take(i as int)),
            ),
        decreases posts.len() - i,
    {
        let p = &posts[i].0;
        let ghost prefix = posts@.take(i as int);
        let ghost next = posts@.take(i + 1);
        proof {
            assert(next.drop_last() =~= prefix);
            assert(next.last() == posts@[i as int]);
        }
        let ghost tv = p.tags.deep_view();
        let ghost base = tag_pairs(prefix);
        let mut t: usize = 0;
        assert(base + tv.take(0).map_values(|x: Seq<char>| (x, *p)) =~= base);
        while t < p.tags.len()
            invariant
                t <= p.tags.len(),
                tv == p.tags.deep_view(),
                same_groups(named_groups(tags@), group_pairs(base + tv.take(t as int).map_values(
                    |x: Seq<char>| (x, *p),
                ))),
            decreases p.tags.len() - t,
        {
            let ghost pairs = base + tv.take(t as int).map_values(|x: Seq<char>| (x, *p));
            let ghost more = base + tv.take(t + 1).map_values(|x: Seq<char>| (x, *p));
            proof {
                assert(more =~= pairs.push((tv[t as int], *p)));
                assert(more.drop_last() =~= pairs);
                assert(tv[t as int] == p.tags@[t as int]@);
            }
            add_named(&mut tags, &p.tags[t], p, Ghost(group_pairs(pairs)));
            t += 1;
        }
        assert(tv.take(p.tags.len() as int) =~= tv);
        assert(tag_pairs(next) =~= base + tv.map_values(|x: Seq<char>| (x, *p)));
        match &p.category {
            Some(c) => {
                let ghost cp = category_pairs(prefix);
                assert(category_pairs(next) =~= cp.push((c@, *p)));
                assert(category_pairs(next).drop_last() =~= cp);
                add_named(&mut categories, c, p, Ghost(group_pairs(cp)));
            },
            None => {
                assert(category_pairs(next) =~= category_pairs(prefix));
            },
        }
        add_month(&mut archives, (posts[i].1, posts[i].2), p, Ghost(month_groups(prefix)));
        i += 1;
    }
    assert(posts@.take(posts.len() as int) =~= posts@);
    TaxonomyIndex { tags, categories, archives }
}

/// Every month of `s` comes before every later one.
pub open spec fn months_ascending(s: Seq<((i32, u32), Seq<PostRef>)>) -> bool {
    forall|a: int, b: int| 0 <= a < b < s.len() ==> month_lt(#[trigger] s[a].0, #[trigger] s[b].0)
}

proof fn lemma_insert_month_sorted(s: Seq<((i32, u32), Seq<PostRef>)>, e: ((i32, u32), Seq<PostRef>))
    requires
        months_ascending(s),
        forall|i: int| 0 <= i < s.len() ==> #[trigger] s[i].0 != e.0,
    ensures
        months_ascending(insert_month(s, e)),
        forall|k: int| 0 <= k < insert_month(s, e).len() ==> #[trigger] insert_month(s, e)[k] == e
            || s.contains(insert_month(s, e)[k]),
    decreases s.len(),
{
    if s.len() == 0 {
    } else if month_lt(e.0, s.last().0) {
        let d = s.drop_last();
        let last = s.last();
        assert forall|a: int, b: int| 0 <= a < b < d.len() implies month_lt(
            #[trigger] d[a].0,
            #[trigger] d[b].0,
        ) by {
            assert(d[a] == s[a] && d[b] == s[b]);
        }
        assert forall|i: int| 0 <= i < d.len() implies #[trigger] d[i].0 != e.0 by {
            assert(d[i] == s[i]);
        }
        lemma_insert_month_sorted(d, e);
        let t = insert_month(d, e);
        let r = t.push(last);
        assert forall|k: int| 0 <= k < t.len() implies month_lt(#[trigger] t[k].0, last.0) by {
            if t[k] != e {
                let i = choose|i: int| 0 <= i < d.len() && d[i] == t[k];
                assert(s[i] == d[i]);
                assert(s[s.len() - 1] == last);
            }
        }
        assert forall|a: int, b: int| 0 <= a < b < r.len() implies month_lt(
            #[trigger] r[a].0,
            #[trigger] r[b].0,
        ) by {
            assert(r[a] == t[a]);
            if b < t.len() {
                assert(r[b] == t[b]);
            }
        }
        assert forall|k: int| 0 <= k < r.len() implies #[trigger] r[k] == e || s.contains(r[k]) by {
            if k < t.len() {
                assert(r[k] == t[k]);
                if t[k] != e {
                    let i = choose|i: int| 0 <= i < d.len() && d[i] == t[k];
                    assert(s[i] == d[i]);
                }
            } else {
                assert(s[s.len() - 1] == last);
            }
        }
    } else {
        let r = s.push(e);
        assert(s[s.len() - 1].0 != e.0);
        assert forall|a: int, b: int| 0 <= a < b < r.len() implies month_lt(
            #[trigger] r[a].0,
            #[trigger] r[b].0,
        ) by {
            assert(r[a] == s[a]);
            if b < s.len() {
                assert(r[b] == s[b]);
            } else if a < s.len() - 1 {
                assert(month_lt(s[a].0, s[s.len() - 1].0));
            }
        }
        assert forall|k: int| 0 <= k < r.len() implies #[trigger] r[k] == e || s.contains(r[k]) by {
            if k < s.len() {
                assert(r[k] == s[k]);
            }
        }
    }
}

/// The archive lists each month once, in ascending order.
pub proof fn law_archives_ascending(posts: Seq<(PostRef, i32, u32)>)
    ensures
        months_ascending(month_groups(posts)),
    decreases posts.len(),
{
    if posts.len() > 0 {
        let d = posts.drop_last();
        law_archives_ascending(d);
        let prev = month_groups(d);
        let (p, y, m) = posts.last();
        lemma_key_index(prev, (y, m));
        match key_index(prev, (y, m)) {
            Some(j) => {
                let cur = prev.update(j, ((y, m), prev[j].1.push(p)));
                assert forall|a: int, b: int| 0 <= a < b < cur.len() implies month_lt(
                    #[trigger] cur[a].0,
                    #[trigger] cur[b].0,
                ) by {
                    assert(cur[a].0 == prev[a].0 && cur[b].0 == prev[b].0);
                }
            },
            None => {
                lemma_insert_month_sorted(prev, ((y, m), seq![p]));
            },
        }
    }
}

} // verus!
