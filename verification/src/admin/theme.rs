//! Theme switching, and the grouping of a theme's settings on the settings
//! page.
use crate::builder::keyed::str_eq;
use vstd::prelude::*;

verus! {

/// The theme switch form.
#[derive(Debug)]
pub struct SwitchForm {
    pub theme_name: String,
}

/// The group a setting is shown in: its own, or the general group when it
/// names none.
pub open spec fn group_name(g: Seq<char>) -> Seq<char> {
    if g.len() == 0 {
        "通用"@
    } else {
        g
    }
}

/// The position of the group named `g` in `groups`, the first if several.
pub open spec fn group_index(groups: Seq<(Seq<char>, Seq<usize>)>, g: Seq<char>) -> Option<int>
    decreases groups.len(),
{
    if groups.len() == 0 {
        None
    } else {
        match group_index(groups.drop_last(), g) {
            Some(k) => Some(k),
            None => if groups.last().0 == g {
                Some(groups.len() - 1)
            } else {
                None
            },
        }
    }
}

/// The settings grouped by the groups they name (`groups[i]` is the group of
/// setting `i`): groups in the order they first appear, each with the
/// positions of its settings in order.
pub open spec fn grouped(groups: Seq<Seq<char>>) -> Seq<(Seq<char>, Seq<usize>)>
    decreases groups.len(),
{
    if groups.len() == 0 {
        Seq::empty()
    } else {
        let prev = grouped(groups.drop_last());
        let g = group_name(groups.last());
        let i = (groups.len() - 1) as usize;
        match group_index(prev, g) {
            Some(k) => prev.update(k, (g, prev[k].1.push(i))),
            None => prev.push((g, seq![i])),
        }
    }
}

/// A group list as (name, positions).
pub open spec fn groups_view(v: Seq<(String, Vec<usize>)>) -> Seq<(Seq<char>, Seq<usize>)> {
    v.map_values(|e: (String, Vec<usize>)| (e.0@, e.1@))
}

proof fn lemma_group_index(groups: Seq<(Seq<char>, Seq<usize>)>, g: Seq<char>)
    ensures
        match group_index(groups, g) {
            Some(k) => 0 <= k < groups.len() && groups[k].0 == g && forall|j: int|
                0 <= j < k ==> #[trigger] groups[j].0 != g,
            None => forall|j: int| 0 <= j < groups.len() ==> #[trigger] groups[j].0 != g,
        },
    decreases groups.len(),
{
    if groups.len() > 0 {
        let d = groups.drop_last();
        lemma_group_index(d, g);
        match group_index(d, g) {
            Some(k) => {
                assert(groups[k] == d[k]);
                assert forall|j: int| 0 <= j < k implies #[trigger] groups[j].0 != g by {
                    assert(groups[j] == d[j]);
                }
            },
            None => {
                assert forall|j: int| 0 <= j < groups.len() - 1 implies #[trigger] groups[j].0 != g by {
                    assert(groups[j] == d[j]);
                }
            },
        }
    }
}

/// Groups the settings of a theme by the group each names (see `grouped`).
pub fn group_fields(groups: &Vec<String>) -> (r: Vec<(String, Vec<usize>)>)
    ensures
        groups_view(r@) == grouped(groups.deep_view()),
{
    let ghost gv = groups.deep_view();
    let mut out: Vec<(String, Vec<usize>)> = Vec::new();
    let mut i: usize = 0;
    assert(gv.take(0) =~= Seq::<Seq<char>>::empty());
    assert(groups_view(out@) =~= Seq::<(Seq<char>, Seq<usize>)>::empty());
    while i < groups.len()
        invariant
            i <= groups.len(),
            gv == groups.deep_view(),
            groups_view(out@) == grouped(gv.take(i as int)),
        decreases groups.len() - i,
    {
        let chars = crate::text::chars_of(groups[i].as_str());
        let name = if chars.len() == 0 {
            "通用".to_owned()
        } else {
            groups[i].clone()
        };
        proof {
            assert(gv.take(i + 1).drop_last() =~= gv.take(i as int));
            assert(gv.take(i + 1).last() == groups@[i as int]@);
            assert(name@ == group_name(gv[i as int]));
        }
        let ghost prev = groups_view(out@);
        proof {
            lemma_group_index(prev, name@);
        }
        let mut k: usize = 0;
        let mut found = false;
        while k < out.len() && !found
            invariant
                k <= out.len(),
                prev == groups_view(out@),
                found ==> k < out.len() && prev[k as int].0 == name@,
                forall|j: int| 0 <= j < k ==> #[trigger] prev[j].0 != name@,
            decreases out.len() - k + if found { 0int } else { 1int },
        {
            assert(prev[k as int].0 == out@[k as int].0@);
            if str_eq(out[k].0.as_str(), name.as_str()) {
                found = true;
            } else {
                k += 1;
            }
        }
        if found {
            assert(group_index(prev, name@) == Some(k as int));
            let mut entry = (String::new(), Vec::new());
            std::mem::swap(&mut entry, &mut out[k]);
            let ghost old_positions = entry.1@;
            entry.1.push(i);
            let ghost new_entry = (entry.0@, entry.1@);
            out.set(k, entry);
            proof {
                assert(new_entry == (name@, prev[k as int].1.push(i)));
            }
            assert(groups_view(out@) =~= prev.update(k as int, (name@, prev[k as int].1.push(i))));
        } else {
            assert(group_index(prev, name@) is None);
            let mut positions: Vec<usize> = Vec::new();
            positions.push(i);
            let ghost entry = (name@, positions@);
            out.push((name, positions));
            assert(entry.1 =~= seq![i]);
            assert(groups_view(out@) =~= prev.push(entry));
        }
        i += 1;
    }
    assert(gv.take(groups.len() as int) =~= gv);
    out
}

/// Every setting is listed in the group it names, and no two groups share a
/// name.
pub proof fn law_settings_grouped(groups: Seq<Seq<char>>)
    ensures
        forall|a: int, b: int|
            0 <= a < b < grouped(groups).len() ==> (#[trigger] grouped(groups)[a]).0 != (
            #[trigger] grouped(groups)[b]).0,
        forall|i: int|
            0 <= i < groups.len() ==> exists|k: int|
                0 <= k < grouped(groups).len() && (#[trigger] grouped(groups)[k]).0 == group_name(
                    #[trigger] groups[i],
                ) && grouped(groups)[k].1.contains(i as usize),
    decreases groups.len(),
{
    if groups.len() > 0 {
        let d = groups.drop_last();
        law_settings_grouped(d);
        let prev = grouped(d);
        let g = group_name(groups.last());
        let n = (groups.len() - 1) as usize;
        lemma_group_index(prev, g);
        let cur = grouped(groups);
        match group_index(prev, g) {
            Some(k) => {
                assert(cur == prev.update(k, (g, prev[k].1.push(n))));
                assert forall|a: int, b: int| 0 <= a < b < cur.len() implies (#[trigger] cur[a]).0
                    != (#[trigger] cur[b]).0 by {
                    assert(cur[a].0 == prev[a].0 && cur[b].0 == prev[b].0);
                }
                assert forall|i: int| 0 <= i < groups.len() implies exists|m: int|
                    0 <= m < cur.len() && (#[trigger] cur[m]).0 == group_name(#[trigger] groups[i])
                        && cur[m].1.contains(i as usize) by {
                    if i < groups.len() - 1 {
                        assert(groups[i] == d[i]);
                        let m = choose|m: int|
                            0 <= m < prev.len() && (#[trigger] prev[m]).0 == group_name(d[i])
                                && prev[m].1.contains(i as usize);
                        let j = choose|j: int| 0 <= j < prev[m].1.len() && prev[m].1[j] == i as usize;
                        assert(cur[m].0 == prev[m].0);
                        if m == k {
                            assert(cur[m].1[j] == i as usize);
                        } else {
                            assert(cur[m] == prev[m]);
                        }
                    } else {
                        assert(cur[k].1[prev[k].1.len() as int] == n);
                    }
                }
            },
            None => {
                assert(cur == prev.push((g, seq![n])));
                assert forall|a: int, b: int| 0 <= a < b < cur.len() implies (#[trigger] cur[a]).0
                    != (#[trigger] cur[b]).0 by {
                    assert(cur[a] == prev[a]);
                    if b < prev.len() {
                        assert(cur[b] == prev[b]);
                    }
                }
                assert forall|i: int| 0 <= i < groups.len() implies exists|m: int|
                    0 <= m < cur.len() && (#[trigger] cur[m]).0 == group_name(#[trigger] groups[i])
                        && cur[m].1.contains(i as usize) by {
                    if i < groups.len() - 1 {
                        assert(groups[i] == d[i]);
                        let m = choose|m: int|
                            0 <= m < prev.len() && (#[trigger] prev[m]).0 == group_name(d[i])
                                && prev[m].1.contains(i as usize);
                        assert(cur[m] == prev[m]);
                    } else {
                        let m = prev.len() as int;
                        assert(cur[m].1[0] == n);
                    }
                }
            },
        }
    }
}

} // verus!
