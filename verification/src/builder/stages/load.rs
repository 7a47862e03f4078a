//! The load stage: what a stored post's metadata contributes to the post
//! that is built.
use crate::content::excerpt::{excerpt_spec, extract_excerpt};
use crate::content::frontmatter::{rfc3339_instant_of, UtcInstant};
use crate::text::{chars_of, opt_view, split_on, trim, trimmed_string};
use vstd::prelude::*;

verus! {

/// The trimmed, non-empty pieces of `s` between commas.
pub open spec fn tag_list(s: Seq<char>) -> Seq<Seq<char>> {
    trimmed_parts(split_on(s, ','))
}

/// The trimmed pieces of `p` that are not empty, in order.
pub open spec fn trimmed_parts(p: Seq<Seq<char>>) -> Seq<Seq<char>>
    decreases p.len(),
{
    if p.len() == 0 {
        Seq::empty()
    } else if trim(p.last()).len() > 0 {
        trimmed_parts(p.drop_last()).push(trim(p.last()))
    } else {
        trimmed_parts(p.drop_last())
    }
}

proof fn lemma_trimmed_parts_append(a: Seq<Seq<char>>, b: Seq<Seq<char>>)
    ensures
        trimmed_parts(a + b) == trimmed_parts(a) + trimmed_parts(b),
    decreases b.len(),
{
    if b.len() == 0 {
        assert(a + b == a);
        assert(trimmed_parts(a) + trimmed_parts(b) == trimmed_parts(a));
    } else {
        lemma_trimmed_parts_append(a, b.drop_last());
        assert((a + b).drop_last() == a + b.drop_last());
        assert((a + b).last() == b.last());
        if trim(b.last()).len() > 0 {
            assert(trimmed_parts(a) + trimmed_parts(b) == (trimmed_parts(a) + trimmed_parts(
                b.drop_last(),
            )).push(trim(b.last())));
        }
    }
}

proof fn lemma_trimmed_parts_single(x: Seq<char>)
    ensures
        trimmed_parts(seq![x]) == (if trim(x).len() > 0 {
            seq![trim(x)]
        } else {
            Seq::<Seq<char>>::empty()
        }),
{
    assert(seq![x].drop_last() == Seq::<Seq<char>>::empty());
    assert(seq![x].last() == x);
    assert(trimmed_parts(Seq::<Seq<char>>::empty()) == Seq::<Seq<char>>::empty());
    if trim(x).len() > 0 {
        assert(Seq::<Seq<char>>::empty().push(trim(x)) == seq![trim(x)]);
    }
}

/// The tags of a post from its metadata's `tags` text: the trimmed,
/// non-empty pieces between commas; none when there is no such text.
pub fn tags_from_meta(tags: Option<&str>) -> (r: Vec<String>)
    ensures
        r.deep_view() == match tags {
            Some(s) => tag_list(s@),
            None => Seq::empty(),
        },
{
    let text = match tags {
        Some(s) => s,
        None => return Vec::new(),
    };
    let v = chars_of(text);
    let ghost target = tag_list(v@);
    let mut r: Vec<String> = Vec::new();
    let mut start: usize = 0;
    assert(v@.skip(0) == v@);
    loop
        invariant
            start <= v.len(),
            v@ == text@,
            tags matches Some(t) && t@ == text@,
            target == tag_list(v@),
            target == r.deep_view() + trimmed_parts(split_on(v@.skip(start as int), ',')),
        decreases v.len() - start,
    {
        let k = crate::text::index_of_exec(&v, ',', start);
        proof {
            crate::text::lemma_split_step(v@, ',', start as int);
        }
        let ghost piece = v@.subrange(start as int, k as int);
        let ghost before = r.deep_view();
        let t = trimmed_string(&v, start, k);
        let tc = chars_of(t.as_str());
        if tc.len() > 0 {
            r.push(t);
            assert(r.deep_view() =~= before.push(trim(piece)));
        }
        proof {
            lemma_trimmed_parts_single(piece);
            assert(r.deep_view() =~= before + trimmed_parts(seq![piece]));
        }
        if k < v.len() {
            proof {
                lemma_trimmed_parts_append(seq![piece], split_on(v@.skip(k + 1), ','));
            }
            start = k + 1;
        } else {
            assert(split_on(v@.skip(start as int), ',') == seq![piece]);
            assert(r.deep_view() == target);
            return r;
        }
    }
}

/// A metadata text, kept only when it is not empty.
pub fn nonempty_meta(s: Option<&str>) -> (r: Option<String>)
    ensures
        opt_view(r) == match s {
            Some(t) => if t@.len() > 0 {
                Some(t@)
            } else {
                None
            },
            None => None,
        },
{
    match s {
        Some(t) => {
            let v = chars_of(t);
            if v.len() > 0 {
                Some(t.to_owned())
            } else {
                None
            }
        },
        None => None,
    }
}

/// The excerpt of a loaded post: the metadata's own when it has one, else
/// one taken from the post's HTML.
pub fn post_excerpt(meta_excerpt: Option<String>, html: &str, excerpt_length: usize) -> (r: String)
    ensures
        r@ == match meta_excerpt {
            Some(e) => e@,
            None => excerpt_spec(html@, excerpt_length as nat),
        },
{
    match meta_excerpt {
        Some(e) => e,
        None => extract_excerpt(html, excerpt_length),
    }
}

/// A stored post as the load stage sees it before it is built: its status
/// and the instant it was created.
#[derive(Debug)]
pub struct PostRow {
    pub slug: String,
    pub status: String,
    pub created: UtcInstant,
}

/// Whether instant `a` comes before instant `b`.
pub open spec fn instant_lt(a: UtcInstant, b: UtcInstant) -> bool {
    a.0 < b.0 || (a.0 == b.0 && a.1 < b.1)
}

/// Whether row `i` comes before row `j` when rows are listed newest first,
/// rows created at the same instant keeping their order.
pub open spec fn newer_first(rows: Seq<PostRow>, i: int, j: int) -> bool {
    instant_lt(rows[j].created, rows[i].created) || (rows[i].created == rows[j].created && i < j)
}

/// Whether row `i` is published.
pub open spec fn is_published(rows: Seq<PostRow>, i: int) -> bool {
    rows[i].status@ == "published"@
}

/// The instant a stored creation time stands for: the RFC 3339 time it
/// holds, or `now` where it holds none.
pub fn created_instant(text: &str, now: UtcInstant) -> (r: UtcInstant)
    ensures
        r == match rfc3339_instant_of(text@) {
            Some(t) => t,
            None => now,
        },
{
    match crate::content::frontmatter::rfc3339_instant(text) {
        Some(t) => t,
        None => now,
    }
}

fn instant_lt_exec(a: UtcInstant, b: UtcInstant) -> (r: bool)
    ensures
        r == instant_lt(a, b),
{
    a.0 < b.0 || (a.0 == b.0 && a.1 < b.1)
}

/// The positions of the published rows, newest first; rows created at the
/// same instant keep their order.
pub fn select_published(rows: &Vec<PostRow>) -> (r: Vec<usize>)
    ensures
        forall|k: int|
            0 <= k < r.len() ==> #[trigger] r@[k] < rows.len() && is_published(rows@, r@[k] as int),
        forall|i: int|
            0 <= i < rows.len() && #[trigger] is_published(rows@, i) ==> r@.contains(i as usize),
        forall|a: int, b: int|
            0 <= a < b < r.len() ==> newer_first(rows@, #[trigger] r@[a] as int, #[trigger] r@[b] as int),
{
    let mut out: Vec<usize> = Vec::new();
    let mut i: usize = 0;
    while i < rows.len()
        invariant
            i <= rows.len(),
            forall|k: int| 0 <= k < out.len() ==> #[trigger] out@[k] < i && is_published(rows@, out@[k] as int),
            forall|j: int| 0 <= j < i && #[trigger] is_published(rows@, j) ==> out@.contains(j as usize),
            forall|a: int, b: int|
                0 <= a < b < out.len() ==> newer_first(rows@, #[trigger] out@[a] as int, #[trigger] out@[b] as int),
        decreases rows.len() - i,
    {
        if crate::builder::keyed::str_eq(rows[i].status.as_str(), "published") {
            let c = rows[i].created;
            let mut pos: usize = 0;
            while pos < out.len() && !instant_lt_exec(rows[out[pos]].created, c)
                invariant
                    pos <= out.len(),
                    i < rows.len(),
                    c == rows@[i as int].created,
                    forall|k: int| 0 <= k < out.len() ==> #[trigger] out@[k] < i,
                    forall|k: int| 0 <= k < pos ==> !instant_lt(rows@[#[trigger] out@[k] as int].created, c),
                decreases out.len() - pos,
            {
                pos += 1;
            }
            proof {
                assert forall|k: int| pos <= k < out.len() implies instant_lt(
                    rows@[#[trigger] out@[k] as int].created,
                    c,
                ) by {
                    if k > pos {
                        assert(newer_first(rows@, out@[pos as int] as int, out@[k] as int));
                    }
                }
            }
            let ghost before = out@;
            out.insert(pos, i);
            proof {
                assert forall|k: int| 0 <= k < out.len() implies #[trigger] out@[k] < i + 1
                    && is_published(rows@, out@[k] as int) by {
                    if k < pos {
                        assert(out@[k] == before[k]);
                    } else if k > pos {
                        assert(out@[k] == before[k - 1]);
                    }
                }
                assert forall|j: int| 0 <= j < i + 1 && #[trigger] is_published(rows@, j) implies out@.contains(
                    j as usize,
                ) by {
                    if j < i {
                        let m = choose|m: int| 0 <= m < before.len() && before[m] == j as usize;
                        if m < pos {
                            assert(out@[m] == j as usize);
                        } else {
                            assert(out@[m + 1] == j as usize);
                        }
                    } else {
                        assert(out@[pos as int] == i);
                    }
                }
                assert forall|a: int, b: int| 0 <= a < b < out.len() implies newer_first(
                    rows@,
                    #[trigger] out@[a] as int,
                    #[trigger] out@[b] as int,
                ) by {
                    if b < pos {
                        assert(out@[a] == before[a] && out@[b] == before[b]);
                    } else if b == pos {
                        assert(out@[a] == before[a]);
                        assert(!instant_lt(rows@[before[a] as int].created, c));
                    } else if a == pos {
                        assert(out@[b] == before[b - 1]);
                        assert(instant_lt(rows@[before[b - 1] as int].created, c));
                    } else if a < pos {
                        assert(out@[a] == before[a] && out@[b] == before[b - 1]);
                        assert(newer_first(rows@, before[a] as int, before[b - 1] as int));
                    } else {
                        assert(out@[a] == before[a - 1] && out@[b] == before[b - 1]);
                        assert(newer_first(rows@, before[a - 1] as int, before[b - 1] as int));
                    }
                }
            }
        }
        i += 1;
    }
    out
}

/// A post as it is stored: its text fields, the HTML of its content, its
/// status, its creation and update times as stored, and the metadata texts
/// that the load stage reads (`tags`, `category`, `cover_image`, `excerpt`).
#[derive(Debug)]
pub struct StoredPost {
    pub slug: String,
    pub title: String,
    pub content: String,
    pub status: String,
    pub created_at: String,
    pub updated_at: String,
    pub meta_tags: Option<String>,
    pub meta_category: Option<String>,
    pub meta_cover: Option<String>,
    pub meta_excerpt: Option<String>,
}

/// A post ready to be built, with the position `index` of the stored post it
/// comes from.
#[derive(Debug)]
pub struct LoadedPost {
    pub index: usize,
    pub slug: String,
    pub title: String,
    pub html: String,
    pub created: UtcInstant,
    pub updated: UtcInstant,
    pub tags: Vec<String>,
    pub category: Option<String>,
    pub cover_image: Option<String>,
    pub excerpt: String,
}

/// The instant a stored post was created, `now` where its text holds none.
pub open spec fn created_of(p: StoredPost, now: UtcInstant) -> UtcInstant {
    match rfc3339_instant_of(p.created_at@) {
        Some(t) => t,
        None => now,
    }
}

/// A metadata text kept only when it is not empty.
pub open spec fn nonempty_spec(o: Option<Seq<char>>) -> Option<Seq<char>> {
    match o {
        Some(t) => if t.len() > 0 {
            Some(t)
        } else {
            None
        },
        None => None,
    }
}

/// The stored posts as rows: status and creation instant.
pub open spec fn rows_spec(ps: Seq<StoredPost>, now: UtcInstant) -> Seq<PostRow> {
    ps.map_values(|p: StoredPost| PostRow { slug: p.slug, status: p.status, created: created_of(p, now) })
}

/// Whether `l` is stored post `p` loaded: its texts kept, its times read
/// (the update time falls back on the creation time), its tags split, its
/// empty metadata dropped, and its excerpt the metadata's or one taken from
/// its HTML.
pub open spec fn loaded_ok(l: LoadedPost, p: StoredPost, now: UtcInstant, excerpt_length: nat) -> bool {
    &&& l.slug@ == p.slug@
    &&& l.title@ == p.title@
    &&& l.html@ == p.content@
    &&& l.created == created_of(p, now)
    &&& l.updated == match rfc3339_instant_of(p.updated_at@) {
        Some(t) => t,
        None => created_of(p, now),
    }
    &&& l.tags.deep_view() == match p.meta_tags {
        Some(t) => tag_list(t@),
        None => Seq::empty(),
    }
    &&& opt_view(l.category) == nonempty_spec(opt_view(p.meta_category))
    &&& opt_view(l.cover_image) == nonempty_spec(opt_view(p.meta_cover))
    &&& l.excerpt@ == match nonempty_spec(opt_view(p.meta_excerpt)) {
        Some(e) => e,
        None => excerpt_spec(p.content@, excerpt_length),
    }
}

fn opt_str(o: &Option<String>) -> (r: Option<&str>)
    ensures
        match o {
            Some(s) => r matches Some(t) && t@ == s@,
            None => r is None,
        },
{
    match o {
        Some(s) => Some(s.as_str()),
        None => None,
    }
}

/// The published posts, newest first, each loaded (see `loaded_ok`); `now`
/// stands for a creation time that does not parse.
pub fn load_posts(stored: &Vec<StoredPost>, now: UtcInstant, excerpt_length: usize) -> (r: Vec<LoadedPost>)
    ensures
        forall|k: int|
            0 <= k < r.len() ==> (#[trigger] r@[k]).index < stored.len() && is_published(
                rows_spec(stored@, now),
                r@[k].index as int,
            ) && loaded_ok(r@[k], stored@[r@[k].index as int], now, excerpt_length as nat),
        forall|i: int|
            0 <= i < stored.len() && #[trigger] is_published(rows_spec(stored@, now), i) ==> exists|k: int|
                0 <= k < r.len() && #[trigger] r@[k].index == i,
        forall|a: int, b: int|
            0 <= a < b < r.len() ==> newer_first(
                rows_spec(stored@, now),
                (#[trigger] r@[a]).index as int,
                (#[trigger] r@[b]).index as int,
            ),
{
    let ghost rs = rows_spec(stored@, now);
    let mut rows: Vec<PostRow> = Vec::new();
    let mut i: usize = 0;
    while i < stored.len()
        invariant
            i <= stored.len(),
            rs == rows_spec(stored@, now),
            rows@ == rs.take(i as int),
        decreases stored.len() - i,
    {
        let p = &stored[i];
        let created = created_instant(p.created_at.as_str(), now);
        rows.push(PostRow { slug: p.slug.clone(), status: p.status.clone(), created });
        assert(rows@ =~= rs.take(i + 1));
        i += 1;
    }
    assert(rows@ =~= rs);
    let order = select_published(&rows);
    let mut out: Vec<LoadedPost> = Vec::new();
    let mut k: usize = 0;
    while k < order.len()
        invariant
            k <= order.len(),
            rows@ == rs,
            rs == rows_spec(stored@, now),
            rs.len() == stored.len(),
            out.len() == k,
            forall|j: int| 0 <= j < order.len() ==> #[trigger] order@[j] < rows.len() && is_published(rows@, order@[j] as int),
            forall|j: int| 0 <= j < k ==> (#[trigger] out@[j]).index == order@[j] && loaded_ok(
                out@[j],
                stored@[order@[j] as int],
                now,
                excerpt_length as nat,
            ),
        decreases order.len() - k,
    {
        let idx = order[k];
        let p = &stored[idx];
        let created = created_instant(p.created_at.as_str(), now);
        let updated = created_instant(p.updated_at.as_str(), created);
        let excerpt_meta = nonempty_meta(opt_str(&p.meta_excerpt));
        let excerpt = post_excerpt(excerpt_meta, p.content.as_str(), excerpt_length);
        let l = LoadedPost {
            index: idx,
            slug: p.slug.clone(),
            title: p.title.clone(),
            html: p.content.clone(),
            created,
            updated,
            tags: tags_from_meta(opt_str(&p.meta_tags)),
            category: nonempty_meta(opt_str(&p.meta_category)),
            cover_image: nonempty_meta(opt_str(&p.meta_cover)),
            excerpt,
        };
        assert(loaded_ok(l, stored@[idx as int], now, excerpt_length as nat));
        out.push(l);
        k += 1;
    }
    proof {
        assert forall|i: int|
            0 <= i < stored.len() && #[trigger] is_published(rows_spec(stored@, now), i) implies exists|k: int|
            0 <= k < out.len() && #[trigger] out@[k].index == i by {
            assert(order@.contains(i as usize));
            let k = choose|k: int| 0 <= k < order.len() && order@[k] == i as usize;
            assert(out@[k].index == i);
        }
        assert forall|a: int, b: int| 0 <= a < b < out.len() implies newer_first(
            rows_spec(stored@, now),
            (#[trigger] out@[a]).index as int,
            (#[trigger] out@[b]).index as int,
        ) by {
            assert(newer_first(rows@, order@[a] as int, order@[b] as int));
        }
    }
    out
}

} // verus!
