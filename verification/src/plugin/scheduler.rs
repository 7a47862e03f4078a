//! The order in which enabled plugins load: conflicts are refused, then the
//! plugins are placed round by round, each after the plugins it names in
//! `after`.
use crate::plugin::registry::PluginDependencies;
use crate::text::{
    chars_of, lemma_sorted_of, lemma_sorted_of_set, lemma_str_lt_irreflexive, lemma_str_lt_total,
    lemma_str_lt_transitive, range_eq, sorted_of, str_lt, str_lt_exec, string_of, strictly_sorted,
};
use vstd::prelude::*;

verus! {

/// Why no load order could be given.
#[derive(Debug)]
pub enum LoadOrderError {
    /// `plugin` declares a conflict with `other`, and both are enabled.
    Conflict { plugin: String, other: String },
    /// The `after` dependencies form a cycle (or a plugin is enabled twice).
    Cycle,
}

impl LoadOrderError {
    /// The message reported to the user.
    pub fn to_message(&self) -> (r: String)
        ensures
            r@ == match self {
                LoadOrderError::Conflict { plugin, other } => "插件 "@ + plugin@ + " 与 "@
                    + other@ + " 存在冲突，不能同时启用"@,
                LoadOrderError::Cycle => "插件依赖存在循环：无法确定加载顺序"@,
            },
    {
        match self {
            LoadOrderError::Conflict { plugin, other } => {
                let mut s = "插件 ".to_owned();
                crate::text::push_all(&mut s, plugin);
                crate::text::string_push_str(&mut s, " 与 ");
                crate::text::push_all(&mut s, other);
                crate::text::string_push_str(&mut s, " 存在冲突，不能同时启用");
                s
            },
            LoadOrderError::Cycle => "插件依赖存在循环：无法确定加载顺序".to_owned(),
        }
    }
}

/// What resolving the load order gives, in mathematical terms.
pub enum LoadOrderOutcome {
    Order(Seq<Seq<char>>),
    Conflict(Seq<char>, Seq<char>),
    Cycle,
}

/// The enabled plugins' names.
pub open spec fn names_of(p: Seq<(String, PluginDependencies)>) -> Seq<Seq<char>> {
    p.map_values(|e: (String, PluginDependencies)| e.0@)
}

/// The `after` list of each enabled plugin.
pub open spec fn afters_of(p: Seq<(String, PluginDependencies)>) -> Seq<Seq<Seq<char>>> {
    p.map_values(|e: (String, PluginDependencies)| e.1.after.deep_view())
}

/// The `conflicts` list of each enabled plugin.
pub open spec fn conflicts_of(p: Seq<(String, PluginDependencies)>) -> Seq<Seq<Seq<char>>> {
    p.map_values(|e: (String, PluginDependencies)| e.1.conflicts.deep_view())
}

/// The first conflict between enabled plugins, scanning plugin `i` from its
/// conflict `j` on: the plugin and the enabled plugin it conflicts with.
pub open spec fn first_conflict(
    n: Seq<Seq<char>>,
    c: Seq<Seq<Seq<char>>>,
    i: int,
    j: int,
) -> Option<(Seq<char>, Seq<char>)>
    decreases n.len() - i, c[i].len() - j,
{
    if i < 0 || i >= n.len() {
        None
    } else if j < 0 || j >= c[i].len() {
        first_conflict(n, c, i + 1, 0)
    } else if n.contains(c[i][j]) {
        Some((n[i], c[i][j]))
    } else {
        first_conflict(n, c, i, j + 1)
    }
}

/// `p` must load before `x`: an enabled plugin named `x` lists the enabled
/// plugin `p` in `after`.
pub open spec fn is_pred(n: Seq<Seq<char>>, a: Seq<Seq<Seq<char>>>, p: Seq<char>, x: Seq<char>) -> bool {
    exists|k: int| 0 <= k < n.len() && n[k] == x && #[trigger] a[k].contains(p) && n.contains(p)
}

/// The enabled plugins not yet placed whose predecessors are all placed.
pub open spec fn ready(n: Seq<Seq<char>>, a: Seq<Seq<Seq<char>>>, done: Set<Seq<char>>) -> Set<
    Seq<char>,
> {
    n.to_set().filter(
        |x: Seq<char>|
            !done.contains(x) && (forall|p: Seq<char>| is_pred(n, a, p, x) ==> done.contains(p)),
    )
}

/// The plugins placed after `k` rounds.
pub open spec fn done_after(n: Seq<Seq<char>>, a: Seq<Seq<Seq<char>>>, k: nat) -> Set<Seq<char>>
    decreases k,
{
    if k == 0 {
        Set::empty()
    } else {
        let d = done_after(n, a, (k - 1) as nat);
        d.union(ready(n, a, d))
    }
}

/// The order after `k` rounds: each round appends the ready plugins in name
/// order.
pub open spec fn order_after(n: Seq<Seq<char>>, a: Seq<Seq<Seq<char>>>, k: nat) -> Seq<Seq<char>>
    decreases k,
{
    if k == 0 {
        Seq::empty()
    } else {
        order_after(n, a, (k - 1) as nat) + sorted_of(
            ready(n, a, done_after(n, a, (k - 1) as nat)),
        )
    }
}

/// The load order of the enabled plugins `n` with their `after` lists `a` and
/// `conflicts` lists `c`: the first conflict if there is one; else the order
/// after as many rounds as there are plugins, if it places every plugin;
/// else a cycle.
pub open spec fn load_order_spec(
    n: Seq<Seq<char>>,
    a: Seq<Seq<Seq<char>>>,
    c: Seq<Seq<Seq<char>>>,
) -> LoadOrderOutcome {
    match first_conflict(n, c, 0, 0) {
        Some(pair) => LoadOrderOutcome::Conflict(pair.0, pair.1),
        None => {
            let r = order_after(n, a, n.len());
            if r.len() == n.len() {
                LoadOrderOutcome::Order(r)
            } else {
                LoadOrderOutcome::Cycle
            }
        },
    }
}

/// The number of entries of `n` not in `d`.
pub open spec fn undone(n: Seq<Seq<char>>, d: Set<Seq<char>>) -> nat
    decreases n.len(),
{
    if n.len() == 0 {
        0
    } else {
        undone(n.drop_last(), d) + if d.contains(n.last()) {
            0nat
        } else {
            1nat
        }
    }
}

proof fn lemma_undone_shrinks(n: Seq<Seq<char>>, d1: Set<Seq<char>>, d2: Set<Seq<char>>, x: Seq<char>)
    requires
        d1.subset_of(d2),
    ensures
        undone(n, d2) <= undone(n, d1),
        undone(n, d1) <= n.len(),
        n.contains(x) && !d1.contains(x) && d2.contains(x) ==> undone(n, d2) < undone(n, d1),
    decreases n.len(),
{
    if n.len() > 0 {
        lemma_undone_shrinks(n.drop_last(), d1, d2, x);
        if n.contains(x) && !d1.contains(x) && d2.contains(x) {
            let k = choose|k: int| 0 <= k < n.len() && n[k] == x;
            if k < n.len() - 1 {
                assert(n.drop_last()[k] == x);
            }
        }
    }
}

/// The strings held by a vector of character vectors.
pub open spec fn views(v: Seq<Vec<char>>) -> Seq<Seq<char>> {
    v.map_values(|w: Vec<char>| w@)
}

/// `views` one level deeper.
pub open spec fn views2(v: Seq<Vec<Vec<char>>>) -> Seq<Seq<Seq<char>>> {
    v.map_values(|w: Vec<Vec<char>>| views(w@))
}

/// Whether `x` is one of `v`.
fn contains_chars(v: &Vec<Vec<char>>, x: &Vec<char>) -> (r: bool)
    ensures
        r == views(v@).contains(x@),
{
    let mut k: usize = 0;
    while k < v.len()
        invariant
            k <= v.len(),
            forall|j: int| 0 <= j < k ==> views(v@)[j] != x@,
        decreases v.len() - k,
    {
        assert(x@.subrange(0, x@.len() as int) == x@);
        if range_eq(x, 0, x.len(), &v[k]) {
            assert(views(v@)[k as int] == x@);
            return true;
        }
        k += 1;
    }
    false
}

/// The characters of each string.
fn strings_to_chars(v: &Vec<String>) -> (r: Vec<Vec<char>>)
    ensures
        views(r@) == v.deep_view(),
{
    let mut r: Vec<Vec<char>> = Vec::new();
    let mut i: usize = 0;
    while i < v.len()
        invariant
            i <= v.len(),
            views(r@) == v.deep_view().take(i as int),
        decreases v.len() - i,
    {
        let ghost before = views(r@);
        r.push(chars_of(v[i].as_str()));
        assert(views(r@) =~= before.push(v@[i as int]@));
        assert(v.deep_view().take(i + 1) =~= v.deep_view().take(i as int).push(v@[i as int]@));
        i += 1;
    }
    assert(v.deep_view().take(v.len() as int) == v.deep_view());
    r
}

/// The position of the first conflict between enabled plugins, if any.
fn find_conflict(names: &Vec<Vec<char>>, conflicts: &Vec<Vec<Vec<char>>>) -> (r: Option<(usize, usize)>)
    requires
        names.len() == conflicts.len(),
    ensures
        match r {
            Some((i, j)) => i < names.len() && j < conflicts[i as int].len() && first_conflict(
                views(names@),
                views2(conflicts@),
                0,
                0,
            ) == Some((views(names@)[i as int], views2(conflicts@)[i as int][j as int])),
            None => first_conflict(views(names@), views2(conflicts@), 0, 0) is None,
        },
{
    let ghost n = views(names@);
    let ghost c = views2(conflicts@);
    let mut i: usize = 0;
    while i < names.len()
        invariant
            i <= names.len(),
            names.len() == conflicts.len(),
            n == views(names@),
            c == views2(conflicts@),
            first_conflict(n, c, 0, 0) == first_conflict(n, c, i as int, 0),
        decreases names.len() - i,
    {
        let mut j: usize = 0;
        while j < conflicts[i].len()
            invariant
                i < names.len(),
                j <= conflicts[i as int].len(),
                names.len() == conflicts.len(),
                n == views(names@),
                c == views2(conflicts@),
                first_conflict(n, c, 0, 0) == first_conflict(n, c, i as int, j as int),
            decreases conflicts[i as int].len() - j,
        {
            if contains_chars(names, &conflicts[i][j]) {
                return Some((i, j));
            }
            j += 1;
        }
        i += 1;
    }
    None
}

/// Whether every enabled predecessor of `x` is placed.
fn preds_placed(
    names: &Vec<Vec<char>>,
    afters: &Vec<Vec<Vec<char>>>,
    placed: &Vec<Vec<char>>,
    x: &Vec<char>,
) -> (r: bool)
    requires
        names.len() == afters.len(),
    ensures
        r == (forall|p: Seq<char>|
            is_pred(views(names@), views2(afters@), p, x@) ==> views(placed@).contains(
                p,
            )),
{
    let ghost n = views(names@);
    let ghost a = views2(afters@);
    let ghost d = views(placed@);
    let mut k: usize = 0;
    while k < names.len()
        invariant
            k <= names.len(),
            names.len() == afters.len(),
            n == views(names@),
            a == views2(afters@),
            d == views(placed@),
            forall|k2: int, p: Seq<char>|
                0 <= k2 < k && n[k2] == x@ && #[trigger] a[k2].contains(p) && n.contains(p)
                    ==> d.contains(p),
        decreases names.len() - k,
    {
        assert(x@.subrange(0, x@.len() as int) == x@);
        if range_eq(x, 0, x.len(), &names[k]) {
            let mut j: usize = 0;
            while j < afters[k].len()
                invariant
                    k < names.len(),
                    j <= afters[k as int].len(),
                    names.len() == afters.len(),
                    n == views(names@),
                    a == views2(afters@),
                    d == views(placed@),
                    n[k as int] == x@,
                    forall|k2: int, p: Seq<char>|
                        0 <= k2 < k && n[k2] == x@ && #[trigger] a[k2].contains(p) && n.contains(p)
                            ==> d.contains(p),
                    forall|j2: int|
                        0 <= j2 < j && n.contains(#[trigger] a[k as int][j2]) ==> d.contains(
                            a[k as int][j2],
                        ),
                decreases afters[k as int].len() - j,
            {
                let p = &afters[k][j];
                if contains_chars(names, p) && !contains_chars(placed, p) {
                    assert(a[k as int][j as int] == p@);
                    assert(a[k as int].contains(p@));
                    assert(is_pred(n, a, p@, x@));
                    return false;
                }
                j += 1;
            }
            assert forall|k2: int, p: Seq<char>|
                0 <= k2 < k + 1 && n[k2] == x@ && #[trigger] a[k2].contains(p) && n.contains(p)
                    implies d.contains(p) by {
                if k2 == k {
                    let j2 = choose|j2: int| 0 <= j2 < a[k2].len() && a[k2][j2] == p;
                }
            }
        }
        k += 1;
    }
    true
}

/// Inserts `x` into the increasing sequence `v`, keeping it increasing.
fn insert_sorted(v: &mut Vec<Vec<char>>, x: Vec<char>)
    requires
        strictly_sorted(views(old(v)@)),
        !views(old(v)@).contains(x@),
    ensures
        strictly_sorted(views(final(v)@)),
        views(final(v)@).to_set() == views(old(v)@).to_set().insert(x@),
{
    let ghost s = views(v@);
    let mut pos: usize = 0;
    while pos < v.len() && str_lt_exec(&v[pos], &x)
        invariant
            pos <= v.len(),
            s == views(v@),
            forall|i: int| 0 <= i < pos ==> str_lt(#[trigger] s[i], x@),
        decreases v.len() - pos,
    {
        pos += 1;
    }
    let ghost xv = x@;
    v.insert(pos, x);
    let ghost t = views(v@);
    assert(t =~= s.insert(pos as int, xv));
    proof {
        if pos < s.len() {
            assert(s[pos as int] != xv);
            lemma_str_lt_total(s[pos as int], xv);
        }
        assert forall|i: int, j: int| 0 <= i < j < t.len() implies str_lt(
            #[trigger] t[i],
            #[trigger] t[j],
        ) by {
            if j < pos {
            } else if j == pos {
                assert(t[i] == s[i]);
            } else if i < pos {
                assert(t[i] == s[i] && t[j] == s[j - 1]);
            } else if i == pos {
                assert(t[j] == s[j - 1]);
                if j - 1 > pos {
                    lemma_str_lt_transitive(xv, s[pos as int], s[j - 1]);
                }
            } else {
                assert(t[i] == s[i - 1] && t[j] == s[j - 1]);
            }
        }
        assert forall|y: Seq<char>| t.to_set().contains(y) <==> s.to_set().insert(xv).contains(
            y,
        ) by {
            if t.to_set().contains(y) {
                let i = choose|i: int| 0 <= i < t.len() && t[i] == y;
                if i < pos {
                    assert(s[i] == y);
                } else if i > pos {
                    assert(s[i - 1] == y);
                }
            }
            if s.to_set().contains(y) {
                let i = choose|i: int| 0 <= i < s.len() && s[i] == y;
                if i < pos {
                    assert(t[i] == y);
                } else {
                    assert(t[i + 1] == y);
                }
            }
            if y == xv {
                assert(t[pos as int] == y);
            }
        }
        assert(t.to_set() =~= s.to_set().insert(xv));
    }
}

/// Whether `x` is among the first `i` entries of `n`.
pub open spec fn in_prefix(n: Seq<Seq<char>>, i: int, x: Seq<char>) -> bool {
    exists|j: int| 0 <= j < i && n[j] == x
}

/// The plugins ready to be placed after `placed`, in name order.
fn ready_layer(names: &Vec<Vec<char>>, afters: &Vec<Vec<Vec<char>>>, placed: &Vec<Vec<char>>) -> (r: Vec<
    Vec<char>,
>)
    requires
        names.len() == afters.len(),
    ensures
        strictly_sorted(views(r@)),
        views(r@).to_set() == ready(views(names@), views2(afters@), views(placed@).to_set()),
{
    let ghost n = views(names@);
    let ghost a = views2(afters@);
    let ghost d = views(placed@).to_set();
    let ghost rd = ready(n, a, d);
    let mut layer: Vec<Vec<char>> = Vec::new();
    let mut i: usize = 0;
    while i < names.len()
        invariant
            i <= names.len(),
            names.len() == afters.len(),
            n == views(names@),
            a == views2(afters@),
            d == views(placed@).to_set(),
            rd == ready(n, a, d),
            strictly_sorted(views(layer@)),
            forall|x: Seq<char>|
                #![trigger views(layer@).to_set().contains(x)]
                #![trigger rd.contains(x)]
                views(layer@).to_set().contains(x) <==> (rd.contains(x) && in_prefix(
                    n,
                    i as int,
                    x,
                )),
        decreases names.len() - i,
    {
        let x = &names[i];
        let ghost xv = x@;
        assert(n[i as int] == xv);
        let in_placed = contains_chars(placed, x);
        let in_layer = contains_chars(&layer, x);
        let preds = preds_placed(names, afters, placed, x);
        let ghost before = views(layer@);
        proof {
            let pl = views(placed@);
            assert(n.to_set().contains(xv));
            if !in_placed && !in_layer && preds {
                assert(!d.contains(xv));
                assert(preds_all_in(n, a, d, xv)) by {
                    assert forall|p: Seq<char>| is_pred(n, a, p, xv) implies d.contains(p) by {
                        assert(pl.contains(p));
                    }
                }
                assert(rd.contains(xv));
            } else if in_placed {
                assert(d.contains(xv));
                assert(!rd.contains(xv));
            } else if in_layer {
                assert(before.to_set().contains(xv));
            } else {
                let p = choose|p: Seq<char>| is_pred(n, a, p, xv) && !pl.contains(p);
                assert(!d.contains(p));
                assert(!rd.contains(xv));
            }
        }
        if !in_placed && !in_layer && preds {
            let copy = crate::text::vec_range(x, 0, x.len());
            assert(x@.subrange(0, x@.len() as int) == x@);
            insert_sorted(&mut layer, copy);
        }
        proof {
            assert forall|y: Seq<char>|
                #![trigger views(layer@).to_set().contains(y)]
                #![trigger rd.contains(y)]
                views(layer@).to_set().contains(y) <==> (rd.contains(y) && in_prefix(
                    n,
                    i + 1,
                    y,
                )) by {
                assert(before.to_set().contains(y) <==> (rd.contains(y) && in_prefix(
                    n,
                    i as int,
                    y,
                )));
                if in_prefix(n, i as int, y) {
                    let j = choose|j: int| 0 <= j < i && n[j] == y;
                    assert(in_prefix(n, i + 1, y));
                }
                if in_prefix(n, i + 1, y) && !in_prefix(n, i as int, y) {
                    let j = choose|j: int| 0 <= j < i + 1 && n[j] == y;
                    assert(j == i);
                    assert(y == xv);
                }
                if y == xv {
                    assert(in_prefix(n, i + 1, y));
                }
                if !in_placed && !in_layer && preds {
                    assert(views(layer@).to_set() == before.to_set().insert(xv));
                } else {
                    assert(views(layer@) == before);
                }
            }
        }
        i += 1;
    }
    proof {
        assert forall|x: Seq<char>| views(layer@).to_set().contains(x) <==> rd.contains(x) by {
            if rd.contains(x) {
                assert(n.to_set().contains(x));
                let j = choose|j: int| 0 <= j < n.len() && n[j] == x;
                assert(in_prefix(n, names.len() as int, x));
            }
        }
        assert(views(layer@).to_set() =~= rd);
    }
    layer
}

/// Whether `x` is one of `v` (spec form of `contains_chars`).
pub open spec fn contains_chars_spec(v: Seq<Seq<char>>, x: Seq<char>) -> bool {
    v.contains(x)
}

/// Whether every predecessor of `x` is in `d`.
pub open spec fn preds_all_in(
    n: Seq<Seq<char>>,
    a: Seq<Seq<Seq<char>>>,
    d: Set<Seq<char>>,
    x: Seq<char>,
) -> bool {
    forall|p: Seq<char>| is_pred(n, a, p, x) ==> d.contains(p)
}

proof fn lemma_stable(n: Seq<Seq<char>>, a: Seq<Seq<Seq<char>>>, k: nat, m: nat)
    requires
        k <= m,
        ready(n, a, done_after(n, a, k)) == Set::<Seq<char>>::empty(),
    ensures
        done_after(n, a, m) == done_after(n, a, k),
        order_after(n, a, m) == order_after(n, a, k),
    decreases m - k,
{
    if k < m {
        lemma_stable(n, a, k, (m - 1) as nat);
        let e = Seq::<Seq<char>>::empty();
        lemma_sorted_of(e);
        assert(e.to_set() =~= Set::<Seq<char>>::empty());
        assert(done_after(n, a, m) =~= done_after(n, a, k));
        assert(order_after(n, a, m) =~= order_after(n, a, k));
    }
}

/// The load order of the enabled plugins, each given with its dependencies:
/// an error when two enabled plugins conflict or the `after` dependencies
/// cannot all be met; otherwise every plugin, placed round by round after
/// the plugins it names in `after`, each round in name order.
pub fn resolve_load_order(plugins: &Vec<(String, PluginDependencies)>) -> (r: Result<
    Vec<String>,
    LoadOrderError,
>)
    ensures
        match r {
            Ok(order) => load_order_spec(
                names_of(plugins@),
                afters_of(plugins@),
                conflicts_of(plugins@),
            ) == LoadOrderOutcome::Order(order.deep_view()),
            Err(LoadOrderError::Conflict { plugin, other }) => load_order_spec(
                names_of(plugins@),
                afters_of(plugins@),
                conflicts_of(plugins@),
            ) == LoadOrderOutcome::Conflict(plugin@, other@),
            Err(LoadOrderError::Cycle) => load_order_spec(
                names_of(plugins@),
                afters_of(plugins@),
                conflicts_of(plugins@),
            ) == LoadOrderOutcome::Cycle,
        },
{
    let ghost n = names_of(plugins@);
    let ghost a = afters_of(plugins@);
    let ghost c = conflicts_of(plugins@);
    let mut names: Vec<Vec<char>> = Vec::new();
    let mut afters: Vec<Vec<Vec<char>>> = Vec::new();
    let mut conflicts: Vec<Vec<Vec<char>>> = Vec::new();
    let mut i: usize = 0;
    while i < plugins.len()
        invariant
            i <= plugins.len(),
            n == names_of(plugins@),
            a == afters_of(plugins@),
            c == conflicts_of(plugins@),
            views(names@) == n.take(i as int),
            views2(afters@) == a.take(i as int),
            views2(conflicts@) == c.take(i as int),
        decreases plugins.len() - i,
    {
        let ghost nb = views(names@);
        let ghost ab = views2(afters@);
        let ghost cb = views2(conflicts@);
        names.push(chars_of(plugins[i].0.as_str()));
        afters.push(strings_to_chars(&plugins[i].1.after));
        conflicts.push(strings_to_chars(&plugins[i].1.conflicts));
        assert(views(names@) =~= nb.push(n[i as int]));
        assert(views2(afters@) =~= ab.push(a[i as int]));
        assert(views2(conflicts@) =~= cb.push(c[i as int]));
        assert(n.take(i + 1) =~= n.take(i as int).push(n[i as int]));
        assert(a.take(i + 1) =~= a.take(i as int).push(a[i as int]));
        assert(c.take(i + 1) =~= c.take(i as int).push(c[i as int]));
        i += 1;
    }
    assert(n.take(plugins.len() as int) == n);
    assert(a.take(plugins.len() as int) == a);
    assert(c.take(plugins.len() as int) == c);
    if let Some((ci, cj)) = find_conflict(&names, &conflicts) {
        let plugin = string_of(&names[ci]);
        let other = string_of(&conflicts[ci][cj]);
        return Err(LoadOrderError::Conflict { plugin, other });
    }
    let mut placed: Vec<Vec<char>> = Vec::new();
    let ghost mut k: nat = 0;
    proof {
        assert(views(placed@) =~= Seq::<Seq<char>>::empty());
        assert(views(placed@).to_set() =~= Set::<Seq<char>>::empty());
        lemma_undone_shrinks(n, Set::empty(), Set::empty(), Seq::empty());
    }
    loop
        invariant
            names.len() == afters.len(),
            names.len() == plugins.len(),
            n == views(names@),
            a == views2(afters@),
            views(placed@) == order_after(n, a, k),
            views(placed@).to_set() == done_after(n, a, k),
            undone(n, done_after(n, a, k)) + k <= n.len(),
        ensures
            ready(n, a, done_after(n, a, k)) == Set::<Seq<char>>::empty(),
        decreases undone(n, views(placed@).to_set()),
    {
        let layer = ready_layer(&names, &afters, &placed);
        let ghost d = done_after(n, a, k);
        let ghost rd = ready(n, a, d);
        if layer.len() == 0 {
            assert(views(layer@).to_set() =~= Set::<Seq<char>>::empty());
            break;
        }
        proof {
            lemma_sorted_of(views(layer@));
            let x = views(layer@)[0];
            assert(views(layer@).to_set().contains(x));
            assert(rd.contains(x));
            assert(n.to_set().contains(x));
            lemma_undone_shrinks(n, d, d.union(rd), x);
        }
        let ghost p0 = views(placed@);
        let mut j: usize = 0;
        while j < layer.len()
            invariant
                j <= layer.len(),
                views(placed@) == p0 + views(layer@).take(j as int),
            decreases layer.len() - j,
        {
            let ghost pb = views(placed@);
            let copy = crate::text::vec_range(&layer[j], 0, layer[j].len());
            assert(layer[j as int]@.subrange(0, layer[j as int]@.len() as int) == layer[j as int]@);
            placed.push(copy);
            assert(views(placed@) =~= pb.push(views(layer@)[j as int]));
            assert(views(layer@).take(j + 1) =~= views(layer@).take(j as int).push(
                views(layer@)[j as int],
            ));
            j += 1;
        }
        assert(views(layer@).take(layer.len() as int) == views(layer@));
        proof {
            assert(views(placed@) == p0 + sorted_of(rd));
            assert(views(placed@).to_set() =~= d.union(rd)) by {
                assert forall|y: Seq<char>| views(placed@).to_set().contains(y) <==> d.union(
                    rd,
                ).contains(y) by {
                    let q = views(placed@);
                    let l = views(layer@);
                    if q.to_set().contains(y) {
                        let t = choose|t: int| 0 <= t < q.len() && q[t] == y;
                        if t < p0.len() {
                            assert(p0[t] == y);
                            assert(p0.to_set().contains(y));
                        } else {
                            assert(l[t - p0.len()] == y);
                            assert(l.to_set().contains(y));
                        }
                    }
                    if d.contains(y) {
                        assert(p0.to_set().contains(y));
                        let t = choose|t: int| 0 <= t < p0.len() && p0[t] == y;
                        assert(q[t] == y);
                    }
                    if rd.contains(y) {
                        assert(l.to_set().contains(y));
                        let t = choose|t: int| 0 <= t < l.len() && l[t] == y;
                        assert(q[p0.len() + t] == y);
                    }
                }
            }
            k = k + 1;
        }
    }
    proof {
        lemma_stable(n, a, k, n.len());
    }
    if placed.len() != names.len() {
        return Err(LoadOrderError::Cycle);
    }
    let mut out: Vec<String> = Vec::new();
    let mut t: usize = 0;
    while t < placed.len()
        invariant
            t <= placed.len(),
            out.deep_view() == views(placed@).take(t as int),
        decreases placed.len() - t,
    {
        let ghost ob = out.deep_view();
        out.push(string_of(&placed[t]));
        assert(out.deep_view() =~= ob.push(views(placed@)[t as int]));
        assert(views(placed@).take(t + 1) =~= views(placed@).take(t as int).push(
            views(placed@)[t as int],
        ));
        t += 1;
    }
    assert(views(placed@).take(placed.len() as int) == views(placed@));
    Ok(out)
}

// ───────────────────────── laws ─────────────────────────

proof fn lemma_ready_finite(n: Seq<Seq<char>>, a: Seq<Seq<Seq<char>>>, d: Set<Seq<char>>)
    ensures
        ready(n, a, d).finite(),
        ready(n, a, d).subset_of(n.to_set()),
{
    broadcast use vstd::seq_lib::seq_to_set_is_finite;

    vstd::set_lib::lemma_len_subset(ready(n, a, d), n.to_set());
}

proof fn lemma_order_props(n: Seq<Seq<char>>, a: Seq<Seq<Seq<char>>>, k: nat)
    ensures
        order_after(n, a, k).to_set() == done_after(n, a, k),
        order_after(n, a, k).no_duplicates(),
        forall|t: int| 0 <= t < order_after(n, a, k).len() ==> n.contains(#[trigger] order_after(n, a, k)[t]),
        forall|t: int, p: Seq<char>|
            0 <= t < order_after(n, a, k).len() && #[trigger] is_pred(n, a, p, order_after(n, a, k)[t])
                ==> exists|u: int| 0 <= u < t && order_after(n, a, k)[u] == p,
    decreases k,
{
    if k == 0 {
        assert(order_after(n, a, k).to_set() =~= done_after(n, a, k));
    } else {
        let k1 = (k - 1) as nat;
        lemma_order_props(n, a, k1);
        let o = order_after(n, a, k1);
        let d = done_after(n, a, k1);
        let rd = ready(n, a, d);
        lemma_ready_finite(n, a, d);
        lemma_sorted_of_set(rd);
        let l = sorted_of(rd);
        let w = order_after(n, a, k);
        assert(w == o + l);
        assert forall|y: Seq<char>| w.to_set().contains(y) <==> d.union(rd).contains(y) by {
            if w.to_set().contains(y) {
                let t = choose|t: int| 0 <= t < w.len() && w[t] == y;
                if t < o.len() {
                    assert(o[t] == y);
                    assert(o.to_set().contains(y));
                } else {
                    assert(l[t - o.len()] == y);
                    assert(l.to_set().contains(y));
                }
            }
            if d.contains(y) {
                assert(o.to_set().contains(y));
                let t = choose|t: int| 0 <= t < o.len() && o[t] == y;
                assert(w[t] == y);
            }
            if rd.contains(y) {
                assert(l.to_set().contains(y));
                let t = choose|t: int| 0 <= t < l.len() && l[t] == y;
                assert(w[o.len() + t] == y);
            }
        }
        assert(w.to_set() =~= d.union(rd));
        assert forall|i: int, j: int| 0 <= i < w.len() && 0 <= j < w.len() && i != j implies w[i]
            != w[j] by {
            if i < o.len() && j < o.len() {
                assert(w[i] == o[i] && w[j] == o[j]);
            } else if i >= o.len() && j >= o.len() {
                assert(w[i] == l[i - o.len()] && w[j] == l[j - o.len()]);
                lemma_str_lt_irreflexive(w[i]);
                if i < j {
                    assert(str_lt(l[i - o.len()], l[j - o.len()]));
                } else {
                    assert(str_lt(l[j - o.len()], l[i - o.len()]));
                }
            } else if i < o.len() {
                assert(w[i] == o[i] && w[j] == l[j - o.len()]);
                assert(o.to_set().contains(o[i]));
                assert(l.to_set().contains(l[j - o.len()]));
            } else {
                assert(w[j] == o[j] && w[i] == l[i - o.len()]);
                assert(o.to_set().contains(o[j]));
                assert(l.to_set().contains(l[i - o.len()]));
            }
        }
        assert forall|t: int| 0 <= t < w.len() implies n.contains(#[trigger] w[t]) by {
            if t < o.len() {
                assert(w[t] == o[t]);
            } else {
                assert(w[t] == l[t - o.len()]);
                assert(l.to_set().contains(w[t]));
                assert(n.to_set().contains(w[t]));
            }
        }
        assert forall|t: int, p: Seq<char>|
            0 <= t < w.len() && #[trigger] is_pred(n, a, p, w[t]) implies exists|u: int|
            0 <= u < t && w[u] == p by {
            if t < o.len() {
                assert(w[t] == o[t]);
                let u = choose|u: int| 0 <= u < t && o[u] == p;
                assert(w[u] == p);
            } else {
                assert(w[t] == l[t - o.len()]);
                assert(l.to_set().contains(w[t]));
                assert(rd.contains(w[t]));
                assert(d.contains(p));
                assert(o.to_set().contains(p));
                let u = choose|u: int| 0 <= u < o.len() && o[u] == p;
                assert(w[u] == p);
            }
        }
    }
}

/// In a load order, every plugin comes after each enabled plugin it names in
/// `after`.
pub proof fn law_load_order_respects_after(
    n: Seq<Seq<char>>,
    a: Seq<Seq<Seq<char>>>,
    c: Seq<Seq<Seq<char>>>,
    r: Seq<Seq<char>>,
)
    requires
        load_order_spec(n, a, c) == LoadOrderOutcome::Order(r),
    ensures
        forall|i: int, j: int|
            0 <= i < r.len() && 0 <= j < r.len() && is_pred(n, a, #[trigger] r[j], #[trigger] r[i])
                ==> j < i,
{
    lemma_order_props(n, a, n.len());
    assert forall|i: int, j: int|
        0 <= i < r.len() && 0 <= j < r.len() && is_pred(n, a, #[trigger] r[j], #[trigger] r[i])
            implies j < i by {
        let u = choose|u: int| 0 <= u < i && r[u] == r[j];
        assert(u == j);
    }
}

/// A load order lists every enabled plugin exactly once.
pub proof fn law_load_order_is_permutation(
    n: Seq<Seq<char>>,
    a: Seq<Seq<Seq<char>>>,
    c: Seq<Seq<Seq<char>>>,
    r: Seq<Seq<char>>,
)
    requires
        load_order_spec(n, a, c) == LoadOrderOutcome::Order(r),
    ensures
        r.len() == n.len(),
        r.no_duplicates(),
        r.to_set() == n.to_set(),
{
    broadcast use vstd::seq_lib::seq_to_set_is_finite;

    lemma_order_props(n, a, n.len());
    r.unique_seq_to_set();
    n.lemma_cardinality_of_set();
    assert(r.to_set().subset_of(n.to_set())) by {
        assert forall|y: Seq<char>| r.to_set().contains(y) implies n.to_set().contains(y) by {
            let t = choose|t: int| 0 <= t < r.len() && r[t] == y;
            assert(n.contains(r[t]));
        }
    }
    vstd::set_lib::lemma_len_subset(r.to_set(), n.to_set());
    vstd::set_lib::lemma_subset_equality(r.to_set(), n.to_set());
}

proof fn lemma_first_conflict_found(n: Seq<Seq<char>>, c: Seq<Seq<Seq<char>>>, i0: int, j0: int, i: int, j: int)
    requires
        0 <= i0,
        0 <= j0,
        0 <= i < n.len(),
        0 <= j < c[i].len(),
        n.contains(c[i][j]),
        i0 < i || (i0 == i && j0 <= j),
    ensures
        first_conflict(n, c, i0, j0) is Some,
    decreases n.len() - i0, c[i0].len() - j0,
{
    if j0 >= c[i0].len() {
        lemma_first_conflict_found(n, c, i0 + 1, 0, i, j);
    } else if !n.contains(c[i0][j0]) {
        lemma_first_conflict_found(n, c, i0, j0 + 1, i, j);
    }
}

/// Plugin `i` is enabled as `p` and declares a conflict with the enabled
/// plugin `o`.
pub open spec fn conflict_at(n: Seq<Seq<char>>, c: Seq<Seq<Seq<char>>>, i: int, p: Seq<char>, o: Seq<char>) -> bool {
    0 <= i < n.len() && n[i] == p && c[i].contains(o) && n.contains(o)
}

proof fn lemma_first_conflict_sound(n: Seq<Seq<char>>, c: Seq<Seq<Seq<char>>>, i0: int, j0: int)
    requires
        0 <= i0,
        0 <= j0,
    ensures
        match first_conflict(n, c, i0, j0) {
            Some(pair) => exists|i: int| #[trigger] conflict_at(n, c, i, pair.0, pair.1),
            None => true,
        },
    decreases n.len() - i0, c[i0].len() - j0,
{
    if i0 < n.len() {
        if j0 >= c[i0].len() {
            lemma_first_conflict_sound(n, c, i0 + 1, 0);
            assert(first_conflict(n, c, i0, j0) == first_conflict(n, c, i0 + 1, 0));
        } else if n.contains(c[i0][j0]) {
            assert(c[i0].contains(c[i0][j0]));
            assert(first_conflict(n, c, i0, j0) == Some((n[i0], c[i0][j0])));
            assert(conflict_at(n, c, i0, n[i0], c[i0][j0]));
            let pair = first_conflict(n, c, i0, j0)->0;
            assert(pair == (n[i0], c[i0][j0]));
            assert(conflict_at(n, c, i0, pair.0, pair.1));
        } else {
            lemma_first_conflict_sound(n, c, i0, j0 + 1);
            assert(first_conflict(n, c, i0, j0) == first_conflict(n, c, i0, j0 + 1));
        }
    }
}

/// Enabled plugins in conflict are never ordered: when an enabled plugin
/// declares a conflict with another enabled plugin, the result is a conflict.
pub proof fn law_conflicts_refused(
    n: Seq<Seq<char>>,
    a: Seq<Seq<Seq<char>>>,
    c: Seq<Seq<Seq<char>>>,
    i: int,
    j: int,
)
    requires
        0 <= i < n.len(),
        0 <= j < c[i].len(),
        n.contains(c[i][j]),
    ensures
        load_order_spec(n, a, c) is Conflict,
{
    lemma_first_conflict_found(n, c, 0, 0, i, j);
}

/// A reported conflict is real: the first plugin is enabled and declares a
/// conflict with the second, which is enabled too.
pub proof fn law_conflict_reported_is_real(
    n: Seq<Seq<char>>,
    a: Seq<Seq<Seq<char>>>,
    c: Seq<Seq<Seq<char>>>,
    p: Seq<char>,
    o: Seq<char>,
)
    requires
        load_order_spec(n, a, c) == LoadOrderOutcome::Conflict(p, o),
    ensures
        exists|i: int| #[trigger] conflict_at(n, c, i, p, o),
{
    lemma_first_conflict_sound(n, c, 0, 0);
    let pair = first_conflict(n, c, 0, 0)->0;
    assert(pair == (p, o));
    let i = choose|i: int| conflict_at(n, c, i, pair.0, pair.1);
    assert(conflict_at(n, c, i, p, o));
}

} // verus!
