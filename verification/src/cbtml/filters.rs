//! Template filters: slugs, truncation, word counts, labels and URLs.
use crate::content::markdown::{count_words, word_count};
use crate::digest::{hex_of, sha256_hex, sha256_of};
use crate::text::{
    index_of_from,
    char_is_alphanumeric, char_to_uppercase, char_upper_of, chars_of, dec, is_alnum_unicode,
    join_seq, join_strings, lower_of, nonempty_parts, parse_unsigned, parse_unsigned_exec, push_all,
    split_nonempty, split_on, str_to_lowercase, str_to_uppercase, string_of_range, string_push,
    string_push_str, upper_of, usize_to_string,
};
use vstd::prelude::*;

verus! {

/// A character of a slug: itself if alphanumeric, else a hyphen.
pub open spec fn slug_char(c: char) -> char {
    if is_alnum_unicode(c) {
        c
    } else {
        '-'
    }
}

/// The slug of `s`: lowercased, every run of characters that are not
/// alphanumeric turned into one hyphen, with none at either end.
pub open spec fn slugify_spec(s: Seq<char>) -> Seq<char> {
    join_seq(nonempty_parts(split_on(lower_of(s).map_values(|c: char| slug_char(c)), '-')), "-"@)
}

/// Turns a string into a URL slug.
pub fn filter_slugify(value: String) -> (r: String)
    ensures
        r@ == slugify_spec(value@),
{
    let lower = str_to_lowercase(value.as_str());
    let lv = chars_of(lower.as_str());
    let mut mapped: Vec<char> = Vec::new();
    let mut i: usize = 0;
    while i < lv.len()
        invariant
            i <= lv.len(),
            mapped@ == lv@.take(i as int).map_values(|c: char| slug_char(c)),
        decreases lv.len() - i,
    {
        let c = lv[i];
        let m = if char_is_alphanumeric(c) {
            c
        } else {
            '-'
        };
        mapped.push(m);
        assert(lv@.take(i + 1) == lv@.take(i as int).push(c));
        i += 1;
    }
    assert(lv@.take(lv.len() as int) == lv@);
    let parts = split_nonempty(&mapped, '-');
    proof {
        reveal_strlit("-");
    }
    join_strings(&parts, "-")
}

/// `s` cut to its first `n` characters followed by `…` when longer than `n`.
pub open spec fn truncate_spec(s: Seq<char>, n: nat) -> Seq<char> {
    if s.len() <= n {
        s
    } else {
        s.take(n as int).push('\u{2026}')
    }
}

/// Truncates to `length` characters (160 when not given), marking the cut
/// with `…`.
pub fn filter_truncate(value: String, length: Option<usize>) -> (r: String)
    ensures
        r@ == truncate_spec(
            value@,
            match length {
                Some(n) => n as nat,
                None => 160,
            },
        ),
{
    let len = match length {
        Some(n) => n,
        None => 160,
    };
    let chars = chars_of(value.as_str());
    if chars.len() <= len {
        value
    } else {
        let mut s = string_of_range(&chars, 0, len);
        string_push(&mut s, '\u{2026}');
        assert(chars@.subrange(0, len as int) == value@.take(len as int));
        s
    }
}

/// The number of words in `value` (see `count_words`).
pub fn filter_wordcount(value: String) -> (r: u32)
    requires
        word_count(value@) <= u32::MAX,
    ensures
        r == word_count(value@),
{
    count_words(value.as_str())
}

/// Reading time in minutes for a word count written as text: the count
/// divided by 200, at least one; text that is not a `u32` counts as zero.
pub open spec fn reading_minutes_spec(value: Seq<char>) -> nat {
    let wc = match parse_unsigned(value, u32::MAX as nat) {
        Some(n) => n,
        None => 0,
    };
    if wc / 200 >= 1 {
        wc / 200
    } else {
        1
    }
}

/// Reading time in minutes from a word count given as text.
pub fn filter_reading_time(value: &str) -> (r: u32)
    ensures
        r == reading_minutes_spec(value@),
{
    let wc: u32 = match parse_unsigned_exec(value, u32::MAX as u64) {
        Some(n) => n as u32,
        None => 0,
    };
    let m = wc / 200;
    if m >= 1 {
        m
    } else {
        1
    }
}

/// The reading-time label for `minutes`.
pub open spec fn reading_time_label_spec(minutes: nat) -> Seq<char> {
    if minutes < 1 {
        "不足 1 分钟阅读"@
    } else if minutes == 1 {
        "约 1 分钟阅读"@
    } else {
        "约 "@ + dec(minutes) + " 分钟阅读"@
    }
}

/// A human label for a reading time in minutes.
pub fn filter_reading_time_label(minutes: u32) -> (r: String)
    ensures
        r@ == reading_time_label_spec(minutes as nat),
{
    if minutes < 1 {
        "不足 1 分钟阅读".to_owned()
    } else if minutes == 1 {
        "约 1 分钟阅读".to_owned()
    } else {
        let mut s = "约 ".to_owned();
        let n = usize_to_string(minutes as usize);
        push_all(&mut s, &n);
        string_push_str(&mut s, " 分钟阅读");
        s
    }
}

/// `prefix`, the slug of `name`, then `/`.
fn slug_url(prefix: &str, name: String) -> (r: String)
    ensures
        r@ == prefix@ + slugify_spec(name@) + "/"@,
{
    let mut s = prefix.to_owned();
    let slug = filter_slugify(name);
    push_all(&mut s, &slug);
    string_push_str(&mut s, "/");
    s
}

/// The URL of a tag's page.
pub fn filter_tag_url(tag: String) -> (r: String)
    ensures
        r@ == "/tags/"@ + slugify_spec(tag@) + "/"@,
{
    slug_url("/tags/", tag)
}

/// The URL of a category's page.
pub fn filter_category_url(category: String) -> (r: String)
    ensures
        r@ == "/category/"@ + slugify_spec(category@) + "/"@,
{
    slug_url("/category/", category)
}

/// The path as given: absolute URLs are not formed here.
pub fn filter_abs_url(path: String) -> (r: String)
    ensures
        r@ == path@,
{
    path
}

/// `active` for a true value, the empty string otherwise.
pub fn filter_active_class(is_true: bool) -> (r: String)
    ensures
        r@ == (if is_true {
            "active"@
        } else {
            Seq::<char>::empty()
        }),
{
    if is_true {
        "active".to_owned()
    } else {
        String::new()
    }
}

/// The lowercase hexadecimal SHA-256 digest of the UTF-8 bytes of `value`.
pub fn filter_md5(value: String) -> (r: String)
    ensures
        r@ == hex_of(sha256_of(vstd::utf8::encode_utf8(value@))),
{
    sha256_hex(value.as_str().as_bytes())
}

/// Upper case (Unicode).
pub fn filter_upper(value: String) -> (r: String)
    ensures
        r@ == upper_of(value@),
{
    str_to_uppercase(value.as_str())
}

/// Lower case (Unicode).
pub fn filter_lower(value: String) -> (r: String)
    ensures
        r@ == lower_of(value@),
{
    str_to_lowercase(value.as_str())
}

/// `s` with its first character in upper case.
pub open spec fn capitalize_spec(s: Seq<char>) -> Seq<char> {
    if s.len() == 0 {
        Seq::empty()
    } else {
        char_upper_of(s[0]) + s.skip(1)
    }
}

/// The first character in upper case, the rest unchanged.
pub fn filter_capitalize(value: String) -> (r: String)
    ensures
        r@ == capitalize_spec(value@),
{
    let chars = chars_of(value.as_str());
    if chars.len() == 0 {
        return String::new();
    }
    let mut result = char_to_uppercase(chars[0]);
    let rest = string_of_range(&chars, 1, chars.len());
    push_all(&mut result, &rest);
    assert(chars@.subrange(1, chars@.len() as int) == value@.skip(1));
    result
}

// ───────────────────────── the shape of a slug ─────────────────────────

/// Whether `c` occurs nowhere in `p`.
pub open spec fn lacks(p: Seq<char>, c: char) -> bool {
    forall|i: int| 0 <= i < p.len() ==> #[trigger] p[i] != c
}

/// No hyphen at either end, and never two hyphens in a row.
pub open spec fn well_hyphenated(r: Seq<char>) -> bool {
    &&& r.len() > 0 ==> r[0] != '-' && r[r.len() - 1] != '-'
    &&& forall|i: int| 0 <= i < r.len() - 1 && #[trigger] r[i] == '-' ==> r[i + 1] != '-'
}

proof fn lemma_split_parts_lack(s: Seq<char>, c: char)
    ensures
        forall|j: int| 0 <= j < split_on(s, c).len() ==> lacks(#[trigger] split_on(s, c)[j], c),
    decreases s.len(),
{
    let k = index_of_from(s, c, 0);
    crate::text::lemma_index_of_props(s, c, 0);
    if k < s.len() {
        lemma_split_parts_lack(s.skip(k + 1), c);
        let rest = split_on(s.skip(k + 1), c);
        assert(split_on(s, c) == seq![s.take(k)] + rest);
        assert forall|j: int| 0 <= j < split_on(s, c).len() implies lacks(
            #[trigger] split_on(s, c)[j],
            c,
        ) by {
            if j > 0 {
                assert(split_on(s, c)[j] == rest[j - 1]);
            } else {
                assert(split_on(s, c)[j] == s.take(k));
            }
        }
    } else {
        assert(split_on(s, c) == seq![s]);
    }
}

proof fn lemma_nonempty_parts_keep(p: Seq<Seq<char>>, c: char)
    requires
        forall|j: int| 0 <= j < p.len() ==> lacks(#[trigger] p[j], c),
    ensures
        forall|j: int|
            0 <= j < nonempty_parts(p).len() ==> lacks(#[trigger] nonempty_parts(p)[j], c)
                && nonempty_parts(p)[j].len() > 0,
    decreases p.len(),
{
    if p.len() > 0 {
        assert forall|j: int| 0 <= j < p.drop_last().len() implies lacks(
            #[trigger] p.drop_last()[j],
            c,
        ) by {
            assert(p.drop_last()[j] == p[j]);
        }
        lemma_nonempty_parts_keep(p.drop_last(), c);
        assert(lacks(p[p.len() - 1], c));
        let q = nonempty_parts(p.drop_last());
        if p.last().len() > 0 {
            assert forall|j: int| 0 <= j < nonempty_parts(p).len() implies lacks(
                #[trigger] nonempty_parts(p)[j],
                c,
            ) && nonempty_parts(p)[j].len() > 0 by {
                if j < q.len() {
                    assert(nonempty_parts(p)[j] == q[j]);
                } else {
                    assert(nonempty_parts(p)[j] == p.last());
                }
            }
        }
    }
}

proof fn lemma_join_well_hyphenated(ls: Seq<Seq<char>>)
    requires
        forall|j: int| 0 <= j < ls.len() ==> lacks(#[trigger] ls[j], '-') && ls[j].len() > 0,
    ensures
        well_hyphenated(join_seq(ls, "-"@)),
        ls.len() > 0 ==> join_seq(ls, "-"@).len() > 0,
    decreases ls.len(),
{
    reveal_strlit("-");
    if ls.len() == 1 {
        assert(lacks(ls[0], '-'));
        assert(join_seq(ls, "-"@) == ls[0]);
    } else if ls.len() > 1 {
        let init = ls.drop_last();
        assert forall|j: int| 0 <= j < init.len() implies lacks(#[trigger] init[j], '-')
            && init[j].len() > 0 by {
            assert(init[j] == ls[j]);
        }
        lemma_join_well_hyphenated(init);
        let a = join_seq(init, "-"@);
        let l = ls.last();
        assert(lacks(ls[ls.len() - 1], '-') && ls[ls.len() - 1].len() > 0);
        let r = a + "-"@ + l;
        assert(join_seq(ls, "-"@) == r);
        assert(r[0] == a[0]);
        assert(r[r.len() - 1] == l[l.len() - 1]);
        assert forall|i: int| 0 <= i < r.len() - 1 && #[trigger] r[i] == '-' implies r[i + 1]
            != '-' by {
            if i < a.len() - 1 {
                assert(r[i] == a[i] && r[i + 1] == a[i + 1]);
            } else if i == a.len() - 1 {
                assert(r[i] == a[a.len() - 1]);
            } else if i == a.len() {
                assert(r[i + 1] == l[0]);
            } else {
                assert(r[i] == l[i - a.len() - 1]);
            }
        }
    }
}

/// A slug never starts or ends with a hyphen and never holds two hyphens in a
/// row.
pub proof fn law_slug_well_hyphenated(s: Seq<char>)
    ensures
        well_hyphenated(slugify_spec(s)),
{
    let m = lower_of(s).map_values(|c: char| slug_char(c));
    lemma_split_parts_lack(m, '-');
    lemma_nonempty_parts_keep(split_on(m, '-'), '-');
    lemma_join_well_hyphenated(nonempty_parts(split_on(m, '-')));
}

/// Whether every character of `p` is a hyphen or alphanumeric.
pub open spec fn slug_chars_only(p: Seq<char>) -> bool {
    forall|i: int| 0 <= i < p.len() ==> #[trigger] p[i] == '-' || is_alnum_unicode(p[i])
}

proof fn lemma_split_parts_slug_chars(s: Seq<char>, c: char)
    requires
        slug_chars_only(s),
    ensures
        forall|j: int| 0 <= j < split_on(s, c).len() ==> slug_chars_only(#[trigger] split_on(s, c)[j]),
    decreases s.len(),
{
    let k = index_of_from(s, c, 0);
    crate::text::lemma_index_of_props(s, c, 0);
    if k < s.len() {
        let t = s.skip(k + 1);
        assert forall|i: int| 0 <= i < t.len() implies #[trigger] t[i] == '-' || is_alnum_unicode(t[i]) by {
            assert(t[i] == s[i + k + 1]);
        }
        lemma_split_parts_slug_chars(t, c);
        let rest = split_on(t, c);
        assert(split_on(s, c) == seq![s.take(k)] + rest);
        assert forall|j: int| 0 <= j < split_on(s, c).len() implies slug_chars_only(
            #[trigger] split_on(s, c)[j],
        ) by {
            if j > 0 {
                assert(split_on(s, c)[j] == rest[j - 1]);
            } else {
                let h = s.take(k);
                assert(split_on(s, c)[j] == h);
                assert forall|i: int| 0 <= i < h.len() implies #[trigger] h[i] == '-' || is_alnum_unicode(
                    h[i],
                ) by {
                    assert(h[i] == s[i]);
                }
            }
        }
    } else {
        assert(split_on(s, c) == seq![s]);
    }
}

proof fn lemma_nonempty_parts_slug_chars(p: Seq<Seq<char>>)
    requires
        forall|j: int| 0 <= j < p.len() ==> slug_chars_only(#[trigger] p[j]),
    ensures
        forall|j: int| 0 <= j < nonempty_parts(p).len() ==> slug_chars_only(#[trigger] nonempty_parts(p)[j]),
    decreases p.len(),
{
    if p.len() > 0 {
        assert forall|j: int| 0 <= j < p.drop_last().len() implies slug_chars_only(
            #[trigger] p.drop_last()[j],
        ) by {
            assert(p.drop_last()[j] == p[j]);
        }
        lemma_nonempty_parts_slug_chars(p.drop_last());
        assert(slug_chars_only(p[p.len() - 1]));
        let q = nonempty_parts(p.drop_last());
        if p.last().len() > 0 {
            assert forall|j: int| 0 <= j < nonempty_parts(p).len() implies slug_chars_only(
                #[trigger] nonempty_parts(p)[j],
            ) by {
                if j < q.len() {
                    assert(nonempty_parts(p)[j] == q[j]);
                } else {
                    assert(nonempty_parts(p)[j] == p.last());
                }
            }
        }
    }
}

proof fn lemma_join_slug_chars(ls: Seq<Seq<char>>)
    requires
        forall|j: int| 0 <= j < ls.len() ==> slug_chars_only(#[trigger] ls[j]),
    ensures
        slug_chars_only(join_seq(ls, "-"@)),
    decreases ls.len(),
{
    reveal_strlit("-");
    if ls.len() == 1 {
        assert(slug_chars_only(ls[0]));
    } else if ls.len() > 1 {
        let init = ls.drop_last();
        assert forall|j: int| 0 <= j < init.len() implies slug_chars_only(#[trigger] init[j]) by {
            assert(init[j] == ls[j]);
        }
        lemma_join_slug_chars(init);
        let a = join_seq(init, "-"@);
        let l = ls.last();
        assert(slug_chars_only(ls[ls.len() - 1]));
        let r = a + "-"@ + l;
        assert(join_seq(ls, "-"@) == r);
        assert forall|i: int| 0 <= i < r.len() implies #[trigger] r[i] == '-' || is_alnum_unicode(r[i]) by {
            if i < a.len() {
                assert(r[i] == a[i]);
            } else if i > a.len() {
                assert(r[i] == l[i - a.len() - 1]);
            }
        }
    }
}

/// Every character of a slug is a hyphen or alphanumeric.
pub proof fn law_slug_chars(s: Seq<char>)
    ensures
        slug_chars_only(slugify_spec(s)),
{
    let m = lower_of(s).map_values(|c: char| slug_char(c));
    assert forall|i: int| 0 <= i < m.len() implies #[trigger] m[i] == '-' || is_alnum_unicode(m[i]) by {}
    lemma_split_parts_slug_chars(m, '-');
    lemma_nonempty_parts_slug_chars(split_on(m, '-'));
    lemma_join_slug_chars(nonempty_parts(split_on(m, '-')));
}

} // verus!
