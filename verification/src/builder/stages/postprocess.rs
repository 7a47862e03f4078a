//! Rewrites applied to rendered HTML before it is written.
use crate::text::{byte_len, chars_of, contains, find_exec, push_all, string_of_range, string_push_str};
use vstd::prelude::*;

verus! {

/// The pattern of an `<img ...>` tag: its attributes, then `>` or `/>`.
pub open spec fn img_pattern() -> Seq<char> {
    "<img([^>]*?)(/?>)"@
}

/// An `<img` tag rebuilt from its attributes and its closing: with
/// `loading="lazy"` first unless the attributes already set `loading=`.
pub open spec fn lazy_img_spec(attrs: Seq<char>, close: Seq<char>) -> Seq<char> {
    if contains(attrs, "loading="@) {
        "<img"@ + attrs + close
    } else {
        "<img loading=\"lazy\""@ + attrs + close
    }
}

/// Rebuilds one `<img` tag (see `lazy_img_spec`).
pub fn lazy_img_tag(attrs: &str, close: &str) -> (r: String)
    ensures
        r@ == lazy_img_spec(attrs@, close@),
{
    let av = chars_of(attrs);
    let key = chars_of("loading=");
    let mut out = if find_exec(&av, &key, 0).is_some() {
        "<img".to_owned()
    } else {
        "<img loading=\"lazy\"".to_owned()
    };
    string_push_str(&mut out, attrs);
    string_push_str(&mut out, close);
    out
}

/// One match of the `<img` pattern: its start and end as byte offsets into
/// the text, and the text of its two groups.
pub type ImgMatch = (usize, usize, Seq<char>, Seq<char>);

/// The matches that `regex::Regex::new(pattern)` and then `captures_iter`
/// find in `html`, in order; `None` where the pattern does not compile.
pub uninterp spec fn img_captures_of(html: Seq<char>, pattern: Seq<char>) -> Option<Seq<ImgMatch>>;

/// Whether byte offset `b` of `s` falls between two characters.
pub open spec fn on_boundary(s: Seq<char>, b: int) -> bool {
    exists|i: int| 0 <= i <= s.len() && byte_len(#[trigger] s.take(i)) == b
}

/// The position of the character that starts at byte offset `b` of `s`.
pub open spec fn char_pos(s: Seq<char>, b: int) -> int {
    choose|i: int| 0 <= i <= s.len() && byte_len(#[trigger] s.take(i)) == b
}

/// Whether the matches `m` lie in `s` in order, none overlapping, each
/// beginning and ending between characters.
pub open spec fn spans_ok(s: Seq<char>, m: Seq<ImgMatch>) -> bool {
    &&& forall|k: int|
        0 <= k < m.len() ==> (#[trigger] m[k]).0 <= m[k].1 && on_boundary(s, m[k].0 as int)
            && on_boundary(s, m[k].1 as int)
    &&& forall|a: int, b: int| 0 <= a < b < m.len() ==> (#[trigger] m[a]).1 <= (#[trigger] m[b]).0
}

/// Whether each match of `m` is the text `<img` followed by its two groups.
pub open spec fn matches_read_ok(s: Seq<char>, m: Seq<ImgMatch>) -> bool {
    forall|k: int|
        0 <= k < m.len() ==> s.subrange(char_pos(s, (#[trigger] m[k]).0 as int), char_pos(s, m[k].1 as int))
            == "<img"@ + m[k].2 + m[k].3
}

/// The matches found, by the views of their groups.
pub open spec fn captures_seq(v: Vec<(usize, usize, String, String)>) -> Seq<ImgMatch> {
    v@.map_values(|e: (usize, usize, String, String)| (e.0, e.1, e.2@, e.3@))
}

/// An optional list of matches by the views of their groups.
pub open spec fn captures_view(r: Option<Vec<(usize, usize, String, String)>>) -> Option<Seq<ImgMatch>> {
    match r {
        Some(v) => Some(captures_seq(v)),
        None => None,
    }
}

/// `regex::Regex::new(pattern)`, then `captures_iter(html)`: for each match
/// its byte span and its two groups.  Which tags the pattern matches is
/// named, not written out; what is claimed is what the crate documents of
/// every match: matches come in order without overlapping, their offsets
/// fall between characters, and a match is the text of its pattern's parts
/// (`<img`, then the two groups, which take part in every match).
#[verifier::external_body]
fn img_captures(html: &str, pattern: &str) -> (r: Option<Vec<(usize, usize, String, String)>>)
    requires
        pattern@ == img_pattern(),
    ensures
        captures_view(r) == img_captures_of(html@, pattern@),
        r matches Some(v) ==> spans_ok(html@, captures_seq(v)) && matches_read_ok(html@, captures_seq(v)),
{
    match regex::Regex::new(pattern) {
        Ok(re) => Some(
            re.captures_iter(html).map(|c| (c.get(0).unwrap().start(), c.get(0).unwrap().end(), c[1].to_string(), c[2].to_string())).collect(),
        ),
        Err(_) => None,
    }
}

/// `s` from character `from` on, with matches `k..` each replaced by its tag
/// rebuilt (see `lazy_img_spec`) and the text between them kept.
pub open spec fn rewrite_from(s: Seq<char>, m: Seq<ImgMatch>, k: int, from: int) -> Seq<char>
    decreases m.len() - k,
{
    if k < 0 || k >= m.len() {
        s.subrange(from, s.len() as int)
    } else {
        s.subrange(from, char_pos(s, m[k].0 as int)) + lazy_img_spec(m[k].2, m[k].3) + rewrite_from(
            s,
            m,
            k + 1,
            char_pos(s, m[k].1 as int),
        )
    }
}

/// `s` with every match of `m` replaced by its rebuilt tag.
pub open spec fn lazy_rewrite(s: Seq<char>, m: Seq<ImgMatch>) -> Seq<char> {
    rewrite_from(s, m, 0, 0)
}

proof fn lemma_take_bytes_increase(s: Seq<char>, i: int, j: int)
    requires
        0 <= i < j <= s.len(),
    ensures
        byte_len(s.take(i)) < byte_len(s.take(j)),
{
    assert(s.take(j) == s.take(i) + s.subrange(i, j));
    crate::text::lemma_byte_len_append(s.take(i), s.subrange(i, j));
    crate::text::lemma_byte_len_ge_len(s.subrange(i, j));
}

proof fn lemma_char_pos(s: Seq<char>, b: int)
    requires
        on_boundary(s, b),
    ensures
        0 <= char_pos(s, b) <= s.len(),
        byte_len(s.take(char_pos(s, b))) == b,
        forall|i: int| 0 <= i <= s.len() && byte_len(#[trigger] s.take(i)) == b ==> i == char_pos(s, b),
{
    let c = char_pos(s, b);
    assert forall|i: int| 0 <= i <= s.len() && byte_len(#[trigger] s.take(i)) == b implies i == c by {
        if i < c {
            lemma_take_bytes_increase(s, i, c);
        } else if c < i {
            lemma_take_bytes_increase(s, c, i);
        }
    }
}

proof fn lemma_char_pos_monotone(s: Seq<char>, a: int, b: int)
    requires
        on_boundary(s, a),
        on_boundary(s, b),
        a <= b,
    ensures
        char_pos(s, a) <= char_pos(s, b),
{
    lemma_char_pos(s, a);
    lemma_char_pos(s, b);
    if char_pos(s, b) < char_pos(s, a) {
        lemma_take_bytes_increase(s, char_pos(s, b), char_pos(s, a));
    }
}

/// The character position at byte offset `b`, searching from character
/// `from`, which starts at byte `from_byte`.
fn char_pos_exec(v: &Vec<char>, from: usize, from_byte: usize, b: usize) -> (r: usize)
    requires
        from <= v.len(),
        from_byte == byte_len(v@.take(from as int)),
        from_byte <= b,
        on_boundary(v@, b as int),
    ensures
        r == char_pos(v@, b as int),
        from <= r <= v.len(),
        byte_len(v@.take(r as int)) == b,
{
    proof {
        lemma_char_pos(v@, b as int);
    }
    let ghost target = char_pos(v@, b as int);
    let mut i = from;
    let mut n = from_byte;
    while n < b
        invariant
            from <= i <= v.len(),
            n == byte_len(v@.take(i as int)),
            n <= b,
            0 <= target <= v.len(),
            byte_len(v@.take(target)) == b,
            forall|j: int| 0 <= j <= v.len() && byte_len(#[trigger] v@.take(j)) == b ==> j == target,
        decreases v.len() - i,
    {
        proof {
            if target <= i {
                if target < i {
                    lemma_take_bytes_increase(v@, target, i as int);
                }
            }
            assert(i < target);
            assert(v@.take(i + 1) == v@.take(i as int).push(v@[i as int]));
            crate::text::lemma_byte_len_push(v@.take(i as int), v@[i as int]);
            if i + 1 < target {
                lemma_take_bytes_increase(v@, i + 1, target);
            }
        }
        n = n + crate::text::char_utf8_len(v[i]);
        i += 1;
    }
    proof {
        if target < i {
            lemma_take_bytes_increase(v@, target, i as int);
        } else if i < target {
            lemma_take_bytes_increase(v@, i as int, target);
        }
    }
    i
}

/// `html` with `loading="lazy"` added to every `<img>` tag that sets no
/// `loading=` of its own, all other text kept as it is.
pub fn add_lazy_loading(html: String) -> (r: String)
    ensures
        r@ == match img_captures_of(html@, img_pattern()) {
            Some(m) => lazy_rewrite(html@, m),
            None => html@,
        },
{
    let pattern = "<img([^>]*?)(/?>)";
    let caps = match img_captures(html.as_str(), pattern) {
        Some(c) => c,
        None => {
            return html;
        },
    };
    let v = chars_of(html.as_str());
    let ghost m = captures_seq(caps);
    let mut out = String::new();
    let mut from: usize = 0;
    let mut from_byte: usize = 0;
    let mut k: usize = 0;
    assert(v@.take(0) =~= Seq::<char>::empty());
    while k < caps.len()
        invariant
            k <= caps.len(),
            v@ == html@,
            m == captures_seq(caps),
            m.len() == caps.len(),
            spans_ok(v@, m),
            from <= v.len(),
            from_byte == byte_len(v@.take(from as int)),
            k > 0 ==> from_byte == m[k - 1].1,
            k == 0 ==> from == 0 && from_byte == 0,
            out@ + rewrite_from(v@, m, k as int, from as int) == lazy_rewrite(v@, m),
        decreases caps.len() - k,
    {
        let sb = caps[k].0;
        let eb = caps[k].1;
        assert(m[k as int] == (sb, eb, caps[k as int].2@, caps[k as int].3@));
        proof {
            if k > 0 {
                assert(m[k - 1].1 <= m[k as int].0);
            }
        }
        let s = char_pos_exec(&v, from, from_byte, sb);
        let e = char_pos_exec(&v, s, sb, eb);
        let gap = string_of_range(&v, from, s);
        let tag = lazy_img_tag(caps[k].2.as_str(), caps[k].3.as_str());
        let ghost before = out@;
        push_all(&mut out, &gap);
        push_all(&mut out, &tag);
        assert(out@ + rewrite_from(v@, m, k + 1, e as int) =~= before + rewrite_from(
            v@,
            m,
            k as int,
            from as int,
        ));
        from = e;
        from_byte = eb;
        k += 1;
    }
    let tail = string_of_range(&v, from, v.len());
    push_all(&mut out, &tail);
    out
}

/// The rewrite keeps every tag that sets `loading=` as it is and all text
/// between tags, so a page whose images all set `loading=` comes out
/// unchanged.
pub proof fn law_lazy_loading_keeps_loaded_tags(html: Seq<char>, m: Seq<ImgMatch>)
    requires
        spans_ok(html, m),
        matches_read_ok(html, m),
        forall|k: int| 0 <= k < m.len() ==> contains(#[trigger] m[k].2, "loading="@),
    ensures
        lazy_rewrite(html, m) == html,
{
    lemma_rewrite_keeps(html, m, 0, 0);
    assert(html.subrange(0, html.len() as int) =~= html);
}

proof fn lemma_rewrite_keeps(s: Seq<char>, m: Seq<ImgMatch>, k: int, from: int)
    requires
        spans_ok(s, m),
        matches_read_ok(s, m),
        forall|j: int| 0 <= j < m.len() ==> contains(#[trigger] m[j].2, "loading="@),
        0 <= k <= m.len(),
        0 <= from <= s.len(),
        k < m.len() ==> from <= char_pos(s, m[k].0 as int),
    ensures
        rewrite_from(s, m, k, from) == s.subrange(from, s.len() as int),
    decreases m.len() - k,
{
    if k < m.len() {
        let a = char_pos(s, m[k].0 as int);
        let b = char_pos(s, m[k].1 as int);
        lemma_char_pos(s, m[k].0 as int);
        lemma_char_pos(s, m[k].1 as int);
        lemma_char_pos_monotone(s, m[k].0 as int, m[k].1 as int);
        if k + 1 < m.len() {
            assert(m[k].1 <= m[k + 1].0);
            lemma_char_pos_monotone(s, m[k].1 as int, m[k + 1].0 as int);
        }
        lemma_rewrite_keeps(s, m, k + 1, b);
        assert(lazy_img_spec(m[k].2, m[k].3) == "<img"@ + m[k].2 + m[k].3);
        assert(s.subrange(a, b) == "<img"@ + m[k].2 + m[k].3);
        assert(s.subrange(from, a) + s.subrange(a, b) + s.subrange(b, s.len() as int) =~= s.subrange(
            from,
            s.len() as int,
        ));
    }
}

/// The rewrites of rendered HTML: lazy image loading when image
/// optimisation is on.
pub fn apply(html: String, image_optimize: bool) -> (r: String)
    ensures
        r@ == if image_optimize {
            match img_captures_of(html@, img_pattern()) {
                Some(m) => lazy_rewrite(html@, m),
                None => html@,
            }
        } else {
            html@
        },
{
    if image_optimize {
        add_lazy_loading(html)
    } else {
        html
    }
}

} // verus!
