//! The registry of plugin hooks.  A plugin registers handlers for named
//! hooks, each with a priority; filters pass a value through their handlers
//! and actions call theirs.  Handlers run in ascending priority, and those of
//! equal priority in the order they were registered.
//!
//! A handler is known here by the integer key under which the plugin host
//! keeps the script function; running it is the host's work.
use crate::builder::keyed::{
    keys_distinct, lemma_map_of_dom, lemma_map_of_lookup, lemma_map_of_update, map_of, str_eq,
};
use vstd::prelude::*;

verus! {

/// A registered handler: its priority and the key of its function.
pub type Handler = (i32, u64);

/// `e` placed into `s` after every handler whose priority is not greater
/// than its own (one step of a stable sort by priority).
pub open spec fn insert_by_priority(s: Seq<Handler>, e: Handler) -> Seq<Handler>
    decreases s.len(),
{
    if s.len() == 0 {
        seq![e]
    } else if e.0 < s.last().0 {
        insert_by_priority(s.drop_last(), e).push(s.last())
    } else {
        s.push(e)
    }
}

/// `s` stably sorted by priority (`slice::sort_by_key` on the priority,
/// which keeps handlers of equal priority in their order).
pub open spec fn by_priority(s: Seq<Handler>) -> Seq<Handler>
    decreases s.len(),
{
    if s.len() == 0 {
        s
    } else {
        insert_by_priority(by_priority(s.drop_last()), s.last())
    }
}

/// The handlers registered for `hook`, in the order of registration.
pub open spec fn handlers_of(m: Map<Seq<char>, Seq<Handler>>, hook: Seq<char>) -> Seq<Handler> {
    if m.contains_key(hook) {
        m[hook]
    } else {
        Seq::empty()
    }
}

/// `m` after registering `h` for `hook`.
pub open spec fn with_handler(m: Map<Seq<char>, Seq<Handler>>, hook: Seq<char>, h: Handler) -> Map<
    Seq<char>,
    Seq<Handler>,
> {
    m.insert(hook, handlers_of(m, hook).push(h))
}

/// The entries of a hook table as (hook, handlers).
pub open spec fn table_entries(d: Seq<(String, Vec<Handler>)>) -> Seq<(Seq<char>, Seq<Handler>)> {
    d.map_values(|e: (String, Vec<Handler>)| (e.0@, e.1@))
}

/// The handlers of each hook of one kind.
struct HookTable {
    entries: Vec<(String, Vec<Handler>)>,
}

impl View for HookTable {
    type V = Map<Seq<char>, Seq<Handler>>;

    closed spec fn view(&self) -> Map<Seq<char>, Seq<Handler>> {
        map_of(table_entries(self.entries@))
    }
}

/// A copy of a handler list.
fn copy_handlers(v: &Vec<Handler>) -> (r: Vec<Handler>)
    ensures
        r@ == v@,
{
    let mut r: Vec<Handler> = Vec::new();
    let mut i: usize = 0;
    while i < v.len()
        invariant
            i <= v.len(),
            r@ == v@.take(i as int),
        decreases v.len() - i,
    {
        r.push(v[i]);
        assert(v@.take(i + 1) == v@.take(i as int).push(v@[i as int]));
        i += 1;
    }
    assert(v@.take(v.len() as int) == v@);
    r
}

proof fn lemma_insert_at(s: Seq<Handler>, e: Handler, p: int)
    requires
        0 <= p <= s.len(),
        p == 0 || !(e.0 < s[p - 1].0),
        forall|k: int| p <= k < s.len() ==> e.0 < #[trigger] s[k].0,
    ensures
        insert_by_priority(s, e) == s.insert(p, e),
    decreases s.len(),
{
    if s.len() == 0 {
        assert(s.insert(p, e) =~= seq![e]);
    } else if p == s.len() {
        assert(s.insert(p, e) =~= s.push(e));
    } else {
        assert(e.0 < s[s.len() - 1].0);
        let d = s.drop_last();
        assert forall|k: int| p <= k < d.len() implies e.0 < #[trigger] d[k].0 by {
            assert(d[k] == s[k]);
        }
        if p > 0 {
            assert(d[p - 1] == s[p - 1]);
        }
        lemma_insert_at(d, e, p);
        assert(d.insert(p, e).push(s.last()) =~= s.insert(p, e));
    }
}

/// Places `e` into `v` as `insert_by_priority` does.
fn insert_handler(v: &mut Vec<Handler>, e: Handler)
    ensures
        final(v)@ == insert_by_priority(old(v)@, e),
{
    let ghost s = v@;
    let mut j: usize = v.len();
    while j > 0 && e.0 < v[j - 1].0
        invariant
            j <= v.len(),
            s == v@,
            forall|k: int| j <= k < s.len() ==> e.0 < #[trigger] s[k].0,
        decreases j,
    {
        j -= 1;
    }
    proof {
        lemma_insert_at(s, e, j as int);
    }
    v.insert(j, e);
}

/// The handlers of `v` stably sorted by priority.
fn sorted_handlers(v: &Vec<Handler>) -> (r: Vec<Handler>)
    ensures
        r@ == by_priority(v@),
{
    let mut r: Vec<Handler> = Vec::new();
    let mut i: usize = 0;
    assert(v@.take(0) =~= Seq::<Handler>::empty());
    while i < v.len()
        invariant
            i <= v.len(),
            r@ == by_priority(v@.take(i as int)),
        decreases v.len() - i,
    {
        insert_handler(&mut r, v[i]);
        assert(v@.take(i + 1).drop_last() == v@.take(i as int));
        i += 1;
    }
    assert(v@.take(v.len() as int) == v@);
    r
}

impl HookTable {
    #[verifier::type_invariant]
    spec fn keys_unique(&self) -> bool {
        keys_distinct(table_entries(self.entries@))
    }

    fn new() -> (r: Self)
        ensures
            r@ == Map::<Seq<char>, Seq<Handler>>::empty(),
    {
        let r = HookTable { entries: Vec::new() };
        assert(table_entries(r.entries@) =~= Seq::<(Seq<char>, Seq<Handler>)>::empty());
        r
    }

    /// The position of `hook` among the entries, if it has one.
    fn find(&self, hook: &str) -> (r: Option<usize>)
        ensures
            match r {
                Some(i) => i < self.entries.len() && self.entries@[i as int].0@ == hook@,
                None => forall|i: int| 0 <= i < self.entries.len() ==> self.entries@[i].0@ != hook@,
            },
    {
        let mut i: usize = 0;
        while i < self.entries.len()
            invariant
                i <= self.entries.len(),
                forall|j: int| 0 <= j < i ==> self.entries@[j].0@ != hook@,
            decreases self.entries.len() - i,
        {
            if str_eq(self.entries[i].0.as_str(), hook) {
                return Some(i);
            }
            i += 1;
        }
        None
    }

    fn add(&mut self, hook: &str, h: Handler)
        ensures
            final(self)@ == with_handler(old(self)@, hook@, h),
    {
        proof {
            use_type_invariant(&*self);
        }
        let found = self.find(hook);
        let mut d: Vec<(String, Vec<Handler>)> = Vec::new();
        std::mem::swap(&mut d, &mut self.entries);
        let ghost s = table_entries(d@);
        match found {
            Some(i) => {
                let mut hs = copy_handlers(&d[i].1);
                hs.push(h);
                let key = d[i].0.clone();
                let ghost newv = hs@;
                d.set(i, (key, hs));
                proof {
                    lemma_map_of_lookup(s, i as int);
                    lemma_map_of_update(s, i as int, newv);
                    assert(table_entries(d@) =~= s.update(i as int, (s[i as int].0, newv)));
                }
            },
            None => {
                let mut hs: Vec<Handler> = Vec::new();
                hs.push(h);
                let ghost newv = hs@;
                assert(newv =~= Seq::<Handler>::empty().push(h));
                d.push((hook.to_owned(), hs));
                proof {
                    lemma_map_of_dom(s, hook@);
                    assert(table_entries(d@) =~= s.push((hook@, newv)));
                    assert(table_entries(d@).drop_last() == s);
                    assert forall|a: int, b: int| 0 <= a < b < table_entries(d@).len() implies (
                    #[trigger] table_entries(d@)[a]).0 != (#[trigger] table_entries(d@)[b]).0 by {
                        if b == s.len() {
                            assert(s[a].0 == d@[a].0@);
                        }
                    }
                }
            },
        }
        self.entries = d;
    }

    /// The handlers of `hook`, in the order of registration.
    fn handlers(&self, hook: &str) -> (r: Vec<Handler>)
        ensures
            r@ == handlers_of(self@, hook@),
    {
        proof {
            use_type_invariant(self);
            lemma_map_of_dom(table_entries(self.entries@), hook@);
        }
        match self.find(hook) {
            Some(i) => {
                proof {
                    lemma_map_of_lookup(table_entries(self.entries@), i as int);
                }
                copy_handlers(&self.entries[i].1)
            },
            None => Vec::new(),
        }
    }
}

/// The filter and action hooks that plugins registered.
pub struct HookRegistry {
    filters: HookTable,
    actions: HookTable,
}

impl HookRegistry {
    /// The filter handlers of each hook, in the order of registration.
    pub closed spec fn filters(&self) -> Map<Seq<char>, Seq<Handler>> {
        self.filters@
    }

    /// The action handlers of each hook, in the order of registration.
    pub closed spec fn actions(&self) -> Map<Seq<char>, Seq<Handler>> {
        self.actions@
    }

    /// A registry with no handlers.
    pub fn new() -> (r: Self)
        ensures
            r.filters() == Map::<Seq<char>, Seq<Handler>>::empty(),
            r.actions() == Map::<Seq<char>, Seq<Handler>>::empty(),
    {
        HookRegistry { filters: HookTable::new(), actions: HookTable::new() }
    }

    /// Registers the function under `key` as a filter of `hook` with
    /// `priority`.
    pub fn add_filter(&mut self, hook: &str, priority: i32, key: u64)
        ensures
            final(self).filters() == with_handler(old(self).filters(), hook@, (priority, key)),
            final(self).actions() == old(self).actions(),
    {
        self.filters.add(hook, (priority, key));
    }

    /// Registers the function under `key` as an action of `hook` with
    /// `priority`.
    pub fn add_action(&mut self, hook: &str, priority: i32, key: u64)
        ensures
            final(self).actions() == with_handler(old(self).actions(), hook@, (priority, key)),
            final(self).filters() == old(self).filters(),
    {
        self.actions.add(hook, (priority, key));
    }

    /// The filters of `hook` in the order a value passes through them:
    /// ascending priority, equal priorities in order of registration.
    pub fn filter_chain(&self, hook: &str) -> (r: Vec<Handler>)
        ensures
            r@ == by_priority(handlers_of(self.filters(), hook@)),
    {
        let hs = self.filters.handlers(hook);
        sorted_handlers(&hs)
    }

    /// The actions of `hook` in the order they are called: ascending
    /// priority, equal priorities in order of registration.
    pub fn action_chain(&self, hook: &str) -> (r: Vec<Handler>)
        ensures
            r@ == by_priority(handlers_of(self.actions(), hook@)),
    {
        let hs = self.actions.handlers(hook);
        sorted_handlers(&hs)
    }

    /// Whether any filter or action is registered for `hook`.
    pub fn has_handlers(&self, hook: &str) -> (r: bool)
        ensures
            r == (handlers_of(self.filters(), hook@).len() > 0 || handlers_of(self.actions(), hook@).len()
                > 0),
    {
        let f = self.filters.handlers(hook);
        if f.len() > 0 {
            return true;
        }
        let a = self.actions.handlers(hook);
        a.len() > 0
    }
}

/// The handlers of priority `p`, in order.
pub open spec fn at_priority(s: Seq<Handler>, p: i32) -> Seq<Handler> {
    s.filter(|h: Handler| h.0 == p)
}

proof fn lemma_insert_by_priority(s: Seq<Handler>, e: Handler, p: i32)
    ensures
        insert_by_priority(s, e).to_multiset() == s.to_multiset().insert(e),
        forall|k: int| 0 <= k < insert_by_priority(s, e).len() ==> #[trigger] insert_by_priority(s, e)[k]
            == e || s.contains(insert_by_priority(s, e)[k]),
        (forall|i: int, j: int| 0 <= i < j < s.len() ==> #[trigger] s[i].0 <= #[trigger] s[j].0) ==> (
        forall|i: int, j: int|
            0 <= i < j < insert_by_priority(s, e).len() ==> #[trigger] insert_by_priority(s, e)[i].0
                <= #[trigger] insert_by_priority(s, e)[j].0),
        at_priority(insert_by_priority(s, e), p) == (if e.0 == p {
            at_priority(s, p).push(e)
        } else {
            at_priority(s, p)
        }),
    decreases s.len(),
{
    broadcast use vstd::seq_lib::group_to_multiset_ensures;
    broadcast use Seq::lemma_filter_push;

    if s.len() == 0 {
        assert(seq![e] =~= s.push(e));
    } else if e.0 < s.last().0 {
        let d = s.drop_last();
        let last = s.last();
        assert(d.push(last) =~= s);
        lemma_insert_by_priority(d, e, p);
        let t = insert_by_priority(d, e);
        let r = t.push(last);
        assert forall|k: int| 0 <= k < r.len() implies #[trigger] r[k] == e || s.contains(r[k]) by {
            if k < t.len() {
                assert(r[k] == t[k]);
                if t[k] != e {
                    let i = choose|i: int| 0 <= i < d.len() && d[i] == t[k];
                    assert(s[i] == d[i]);
                }
            } else {
                assert(s[s.len() - 1] == last);
            }
        }
        if forall|i: int, j: int| 0 <= i < j < s.len() ==> #[trigger] s[i].0 <= #[trigger] s[j].0 {
            assert forall|i: int, j: int| 0 <= i < j < d.len() implies #[trigger] d[i].0
                <= #[trigger] d[j].0 by {
                assert(d[i] == s[i] && d[j] == s[j]);
            }
            assert forall|i: int, j: int| 0 <= i < j < r.len() implies #[trigger] r[i].0
                <= #[trigger] r[j].0 by {
                if j < t.len() {
                    assert(r[i] == t[i] && r[j] == t[j]);
                } else {
                    assert(r[j] == last);
                    assert(r[i] == t[i]);
                    if t[i] != e {
                        let m = choose|m: int| 0 <= m < d.len() && d[m] == t[i];
                        assert(s[m] == d[m]);
                        assert(s[s.len() - 1] == last);
                    }
                }
            }
        }
    } else {
        let r = s.push(e);
        if forall|i: int, j: int| 0 <= i < j < s.len() ==> #[trigger] s[i].0 <= #[trigger] s[j].0 {
            assert forall|i: int, j: int| 0 <= i < j < r.len() implies #[trigger] r[i].0
                <= #[trigger] r[j].0 by {
                assert(r[i] == s[i]);
                if j < s.len() {
                    assert(r[j] == s[j]);
                } else if i < s.len() - 1 {
                    assert(s[i].0 <= s[s.len() - 1].0);
                }
            }
        }
        assert forall|k: int| 0 <= k < r.len() implies #[trigger] r[k] == e || s.contains(r[k]) by {
            if k < s.len() {
                assert(r[k] == s[k]);
            }
        }
    }
}

/// Handlers run in ascending priority, those of one priority in the order
/// they were registered, and each registered handler runs exactly once.
pub proof fn law_handlers_run_by_priority(s: Seq<Handler>, p: i32)
    ensures
        by_priority(s).to_multiset() == s.to_multiset(),
        forall|i: int, j: int|
            0 <= i < j < by_priority(s).len() ==> #[trigger] by_priority(s)[i].0
                <= #[trigger] by_priority(s)[j].0,
        at_priority(by_priority(s), p) == at_priority(s, p),
    decreases s.len(),
{
    broadcast use vstd::seq_lib::group_to_multiset_ensures;
    broadcast use Seq::lemma_filter_push;

    if s.len() == 0 {
        reveal(Seq::filter);
    } else {
        let d = s.drop_last();
        law_handlers_run_by_priority(d, p);
        lemma_insert_by_priority(by_priority(d), s.last(), p);
        assert(d.push(s.last()) =~= s);
    }
}

/// A handler just registered for a hook is in the hook's chain, after every
/// handler of the same priority registered before it.
pub proof fn law_registered_handler_runs_last_of_its_priority(
    m: Map<Seq<char>, Seq<Handler>>,
    hook: Seq<char>,
    h: Handler,
)
    ensures
        at_priority(by_priority(handlers_of(with_handler(m, hook, h), hook)), h.0) == at_priority(
            by_priority(handlers_of(m, hook)),
            h.0,
        ).push(h),
{
    broadcast use Seq::lemma_filter_push;

    law_handlers_run_by_priority(handlers_of(with_handler(m, hook, h), hook), h.0);
    law_handlers_run_by_priority(handlers_of(m, hook), h.0);
    assert(handlers_of(with_handler(m, hook, h), hook) == handlers_of(m, hook).push(h));
}

} // verus!
