//! Character-level string model shared by the whole library.
//!
//! Strings are reasoned about through their view, a `Seq<char>`.  This module
//! defines the mathematical meaning of the `str` operations the library relies
//! on (`trim`, `lines`, `find`, `starts_with`, byte length, ...) and verified
//! executable counterparts that work on `Vec<char>` buffers.
use vstd::prelude::*;

verus! {

// ───────────────────────── specifications ─────────────────────────

/// `char::is_whitespace`: the Unicode `White_Space` property.
pub open spec fn is_ws(c: char) -> bool {
    ||| ('\t' <= c && c <= '\r')
    ||| c == ' '
    ||| c == '\u{85}'
    ||| c == '\u{a0}'
    ||| c == '\u{1680}'
    ||| ('\u{2000}' <= c && c <= '\u{200a}')
    ||| c == '\u{2028}'
    ||| c == '\u{2029}'
    ||| c == '\u{202f}'
    ||| c == '\u{205f}'
    ||| c == '\u{3000}'
}

/// `char::is_ascii_alphabetic`
pub open spec fn is_ascii_alpha(c: char) -> bool {
    ('a' <= c && c <= 'z') || ('A' <= c && c <= 'Z')
}

/// `char::is_ascii_digit`
pub open spec fn is_ascii_digit(c: char) -> bool {
    '0' <= c && c <= '9'
}

/// `char::is_ascii_alphanumeric`
pub open spec fn is_ascii_alnum(c: char) -> bool {
    is_ascii_alpha(c) || is_ascii_digit(c)
}

/// Number of bytes of `c` in UTF-8 (`char::len_utf8`).
pub open spec fn utf8_len(c: char) -> nat {
    if (c as u32) < 0x80 {
        1
    } else if (c as u32) < 0x800 {
        2
    } else if (c as u32) < 0x10000 {
        3
    } else {
        4
    }
}

/// Number of bytes of a character sequence in UTF-8 (`str::len`).
pub open spec fn byte_len(s: Seq<char>) -> nat
    decreases s.len(),
{
    if s.len() == 0 {
        0
    } else {
        utf8_len(s[0]) + byte_len(s.drop_first())
    }
}

/// Number of leading whitespace characters.
pub open spec fn lead_ws(s: Seq<char>) -> nat
    decreases s.len(),
{
    if s.len() > 0 && is_ws(s[0]) {
        1 + lead_ws(s.drop_first())
    } else {
        0
    }
}

/// Number of trailing whitespace characters.
pub open spec fn trail_ws(s: Seq<char>) -> nat
    decreases s.len(),
{
    if s.len() > 0 && is_ws(s.last()) {
        1 + trail_ws(s.drop_last())
    } else {
        0
    }
}

/// `str::trim_start`
pub open spec fn trim_start(s: Seq<char>) -> Seq<char> {
    s.skip(lead_ws(s) as int)
}

/// `str::trim_end`
pub open spec fn trim_end(s: Seq<char>) -> Seq<char> {
    s.take(s.len() - trail_ws(s))
}

/// `str::trim`
pub open spec fn trim(s: Seq<char>) -> Seq<char> {
    trim_end(trim_start(s))
}

/// `str::starts_with`
pub open spec fn starts_with(s: Seq<char>, p: Seq<char>) -> bool {
    p.len() <= s.len() && s.take(p.len() as int) == p
}

/// `str::ends_with`
pub open spec fn ends_with(s: Seq<char>, p: Seq<char>) -> bool {
    p.len() <= s.len() && s.skip(s.len() - p.len()) == p
}

/// `p` occurs in `s` at position `i`.
pub open spec fn occurs_at(s: Seq<char>, p: Seq<char>, i: int) -> bool {
    0 <= i && i + p.len() <= s.len() && s.subrange(i, i + p.len()) == p
}

/// First position at or after `i` where `p` occurs in `s`.
pub open spec fn find_from(s: Seq<char>, p: Seq<char>, i: int) -> Option<int>
    decreases s.len() - i,
{
    if i < 0 || i + p.len() > s.len() {
        None
    } else if occurs_at(s, p, i) {
        Some(i)
    } else if i >= s.len() {
        None
    } else {
        find_from(s, p, i + 1)
    }
}

/// `str::find`: the first position of `p` in `s`.
pub open spec fn find(s: Seq<char>, p: Seq<char>) -> Option<int> {
    find_from(s, p, 0)
}

/// `str::contains`
pub open spec fn contains(s: Seq<char>, p: Seq<char>) -> bool {
    find(s, p) is Some
}

/// First position at or after `i` that holds `c`, or `s.len()`.
pub open spec fn index_of_from(s: Seq<char>, c: char, i: int) -> int
    decreases s.len() - i,
{
    if i < 0 || i >= s.len() {
        s.len() as int
    } else if s[i] == c {
        i
    } else {
        index_of_from(s, c, i + 1)
    }
}

/// One line of `str::lines`: a terminating `'\n'` has been removed and a
/// `'\r'` right before it is removed too.
pub open spec fn strip_cr(l: Seq<char>) -> Seq<char> {
    if l.len() > 0 && l.last() == '\r' {
        l.drop_last()
    } else {
        l
    }
}

/// `str::lines`
pub open spec fn lines(s: Seq<char>) -> Seq<Seq<char>>
    decreases s.len(),
{
    if s.len() == 0 {
        seq![]
    } else {
        let i = index_of_from(s, '\n', 0);
        proof {
            lemma_index_of_props(s, '\n', 0);
        }
        if i < s.len() {
            seq![strip_cr(s.take(i))] + lines(s.skip(i + 1))
        } else {
            seq![s]
        }
    }
}

/// The decimal digit for `d < 10`.
pub open spec fn digit_char(d: nat) -> char {
    ((d + 48) as u32) as char
}

/// Decimal representation of `n` (`usize as Display`).
pub open spec fn dec(n: nat) -> Seq<char>
    decreases n,
{
    if n < 10 {
        seq![digit_char(n)]
    } else {
        dec(n / 10).push(digit_char(n % 10))
    }
}

/// `n` spaces.
pub open spec fn spaces(n: nat) -> Seq<char> {
    Seq::new(n, |i: int| ' ')
}

/// `{:>w}`: `s` padded on the left with spaces to width `w`.
pub open spec fn pad_left(s: Seq<char>, w: nat) -> Seq<char> {
    if s.len() >= w {
        s
    } else {
        spaces((w - s.len()) as nat) + s
    }
}

/// The strings of `ls` joined with `sep` (`[T]::join`).
pub open spec fn join_seq(ls: Seq<Seq<char>>, sep: Seq<char>) -> Seq<char>
    decreases ls.len(),
{
    if ls.len() == 0 {
        Seq::empty()
    } else if ls.len() == 1 {
        ls[0]
    } else {
        join_seq(ls.drop_last(), sep) + sep + ls.last()
    }
}

/// `str::split` on a character: the pieces between occurrences of `c`.
pub open spec fn split_on(s: Seq<char>, c: char) -> Seq<Seq<char>>
    decreases s.len(),
{
    let k = index_of_from(s, c, 0);
    proof {
        lemma_index_of_props(s, c, 0);
    }
    if k < s.len() {
        seq![s.take(k)] + split_on(s.skip(k + 1), c)
    } else {
        seq![s]
    }
}

/// The non-empty strings of `p`, in order.
pub open spec fn nonempty_parts(p: Seq<Seq<char>>) -> Seq<Seq<char>>
    decreases p.len(),
{
    if p.len() == 0 {
        Seq::empty()
    } else if p.last().len() > 0 {
        nonempty_parts(p.drop_last()).push(p.last())
    } else {
        nonempty_parts(p.drop_last())
    }
}

/// `str::to_lowercase`: named, its Unicode case mapping is not written out here.
pub uninterp spec fn lower_of(s: Seq<char>) -> Seq<char>;

/// `str::to_uppercase`: named, its Unicode case mapping is not written out here.
pub uninterp spec fn upper_of(s: Seq<char>) -> Seq<char>;

/// `char::to_uppercase`, collected into a string.
pub uninterp spec fn char_upper_of(c: char) -> Seq<char>;

/// `char::is_alphanumeric`: the Unicode `Alphabetic` or `Numeric` property.
pub uninterp spec fn is_alnum_unicode(c: char) -> bool;

// ───────────────────────── lemmas ─────────────────────────

pub proof fn lemma_nonempty_parts_append(a: Seq<Seq<char>>, b: Seq<Seq<char>>)
    ensures
        nonempty_parts(a + b) == nonempty_parts(a) + nonempty_parts(b),
    decreases b.len(),
{
    if b.len() == 0 {
        assert(a + b == a);
        assert(nonempty_parts(a) + nonempty_parts(b) == nonempty_parts(a));
    } else {
        lemma_nonempty_parts_append(a, b.drop_last());
        assert((a + b).drop_last() == a + b.drop_last());
        assert((a + b).last() == b.last());
        if b.last().len() > 0 {
            assert(nonempty_parts(a) + nonempty_parts(b) == (nonempty_parts(a) + nonempty_parts(
                b.drop_last(),
            )).push(b.last()));
        }
    }
}

pub proof fn lemma_nonempty_parts_single(x: Seq<char>)
    ensures
        nonempty_parts(seq![x]) == (if x.len() > 0 {
            seq![x]
        } else {
            Seq::<Seq<char>>::empty()
        }),
{
    assert(seq![x].drop_last() == Seq::<Seq<char>>::empty());
    assert(seq![x].last() == x);
    assert(nonempty_parts(Seq::<Seq<char>>::empty()) == Seq::<Seq<char>>::empty());
    if x.len() > 0 {
        assert(Seq::<Seq<char>>::empty().push(x) == seq![x]);
    }
}

pub proof fn lemma_dec_len_mono(a: nat, b: nat)
    requires
        a <= b,
    ensures
        dec(a).len() <= dec(b).len(),
        dec(a).len() >= 1,
    decreases b,
{
    if b >= 10 {
        if a >= 10 {
            lemma_dec_len_mono(a / 10, b / 10);
        } else {
            lemma_dec_len_mono(0, b / 10);
        }
    }
}

pub proof fn lemma_lead_ws_bound(s: Seq<char>)
    ensures
        lead_ws(s) <= s.len(),
        forall|j: int| 0 <= j < lead_ws(s) ==> is_ws(#[trigger] s[j]),
        lead_ws(s) < s.len() ==> !is_ws(s[lead_ws(s) as int]),
    decreases s.len(),
{
    if s.len() > 0 && is_ws(s[0]) {
        lemma_lead_ws_bound(s.drop_first());
        assert forall|j: int| 0 <= j < lead_ws(s) implies is_ws(#[trigger] s[j]) by {
            if j > 0 {
                assert(s[j] == s.drop_first()[j - 1]);
            }
        }
    }
}

pub proof fn lemma_trail_ws_bound(s: Seq<char>)
    ensures
        trail_ws(s) <= s.len(),
        forall|j: int| s.len() - trail_ws(s) <= j < s.len() ==> is_ws(#[trigger] s[j]),
        trail_ws(s) < s.len() ==> !is_ws(s[s.len() - trail_ws(s) - 1]),
    decreases s.len(),
{
    if s.len() > 0 && is_ws(s.last()) {
        lemma_trail_ws_bound(s.drop_last());
        assert forall|j: int| s.len() - trail_ws(s) <= j < s.len() implies is_ws(#[trigger] s[j]) by {
            if j < s.len() - 1 {
                assert(s[j] == s.drop_last()[j]);
            }
        }
    }
}

/// Leading whitespace is characterised by its first non-whitespace position.
pub proof fn lemma_lead_ws_unique(s: Seq<char>, k: int)
    requires
        0 <= k <= s.len(),
        forall|j: int| 0 <= j < k ==> is_ws(#[trigger] s[j]),
        k < s.len() ==> !is_ws(s[k]),
    ensures
        lead_ws(s) == k,
    decreases s.len(),
{
    if k > 0 {
        assert(is_ws(s[0]));
        assert forall|j: int| 0 <= j < k - 1 implies is_ws(#[trigger] s.drop_first()[j]) by {
            assert(s.drop_first()[j] == s[j + 1]);
        }
        if k - 1 < s.drop_first().len() {
            assert(s.drop_first()[k - 1] == s[k]);
        }
        lemma_lead_ws_unique(s.drop_first(), k - 1);
    } else {
        if s.len() > 0 {
            assert(!is_ws(s[0]));
        }
    }
}

/// Trailing whitespace is characterised by its last non-whitespace position.
pub proof fn lemma_trail_ws_unique(s: Seq<char>, k: int)
    requires
        0 <= k <= s.len(),
        forall|j: int| s.len() - k <= j < s.len() ==> is_ws(#[trigger] s[j]),
        k < s.len() ==> !is_ws(s[s.len() - k - 1]),
    ensures
        trail_ws(s) == k,
    decreases s.len(),
{
    if k > 0 {
        assert(is_ws(s[s.len() - 1]));
        assert forall|j: int| s.drop_last().len() - (k - 1) <= j < s.drop_last().len() implies is_ws(
            #[trigger] s.drop_last()[j],
        ) by {
            assert(s.drop_last()[j] == s[j]);
        }
        if k - 1 < s.drop_last().len() {
            assert(s.drop_last()[s.drop_last().len() - (k - 1) - 1] == s[s.len() - k - 1]);
        }
        lemma_trail_ws_unique(s.drop_last(), k - 1);
    } else {
        if s.len() > 0 {
            assert(!is_ws(s.last()));
        }
    }
}

pub proof fn lemma_find_from_props(s: Seq<char>, p: Seq<char>, i: int)
    requires
        0 <= i,
    ensures
        find_from(s, p, i) matches Some(k) ==> i <= k && occurs_at(s, p, k) && forall|j: int|
            i <= j < k ==> !occurs_at(s, p, j),
        find_from(s, p, i) is None ==> forall|j: int| i <= j ==> !occurs_at(s, p, j),
    decreases s.len() - i,
{
    if i < 0 || i + p.len() > s.len() {
    } else if occurs_at(s, p, i) {
    } else if i >= s.len() {
    } else {
        lemma_find_from_props(s, p, i + 1);
    }
}

pub proof fn lemma_index_of_props(s: Seq<char>, c: char, i: int)
    requires
        0 <= i,
    ensures
        i <= index_of_from(s, c, i) || (i > s.len() && index_of_from(s, c, i) == s.len()),
        index_of_from(s, c, i) <= s.len(),
        index_of_from(s, c, i) < s.len() ==> s[index_of_from(s, c, i)] == c,
        forall|j: int| i <= j < index_of_from(s, c, i) ==> s[j] != c,
    decreases s.len() - i,
{
    if i < 0 || i >= s.len() {
    } else if s[i] == c {
    } else {
        lemma_index_of_props(s, c, i + 1);
    }
}

pub proof fn lemma_byte_len_append(a: Seq<char>, b: Seq<char>)
    ensures
        byte_len(a + b) == byte_len(a) + byte_len(b),
    decreases a.len(),
{
    if a.len() == 0 {
        assert(a + b == b);
    } else {
        assert((a + b).drop_first() == a.drop_first() + b);
        lemma_byte_len_append(a.drop_first(), b);
    }
}

pub proof fn lemma_byte_len_ge_len(a: Seq<char>)
    ensures
        a.len() <= byte_len(a),
    decreases a.len(),
{
    if a.len() > 0 {
        lemma_byte_len_ge_len(a.drop_first());
    }
}

pub proof fn lemma_byte_len_subrange(a: Seq<char>, i: int, j: int)
    requires
        0 <= i <= j <= a.len(),
    ensures
        byte_len(a.subrange(i, j)) <= byte_len(a),
{
    assert(a == a.subrange(0, i) + (a.subrange(i, j) + a.subrange(j, a.len() as int)));
    lemma_byte_len_append(a.subrange(0, i), a.subrange(i, j) + a.subrange(j, a.len() as int));
    lemma_byte_len_append(a.subrange(i, j), a.subrange(j, a.len() as int));
}

pub proof fn lemma_lines_len(s: Seq<char>)
    ensures
        lines(s).len() <= s.len(),
    decreases s.len(),
{
    if s.len() > 0 {
        let i = index_of_from(s, '\n', 0);
        lemma_index_of_props(s, '\n', 0);
        if i < s.len() {
            lemma_lines_len(s.skip(i + 1));
        }
    }
}

pub proof fn lemma_byte_len_push(a: Seq<char>, c: char)
    ensures
        byte_len(a.push(c)) == byte_len(a) + utf8_len(c),
{
    lemma_byte_len_append(a, seq![c]);
    assert(a.push(c) == a + seq![c]);
    assert(seq![c].drop_first() == Seq::<char>::empty());
    assert(byte_len(Seq::<char>::empty()) == 0);
    assert(byte_len(seq![c]) == utf8_len(c) + byte_len(seq![c].drop_first()));
}

pub proof fn lemma_index_of_shift(s: Seq<char>, c: char, a: int, i: int)
    requires
        0 <= a <= s.len(),
        0 <= i,
    ensures
        index_of_from(s.skip(a), c, i) == index_of_from(s, c, a + i) - a,
    decreases s.len() - (a + i),
{
    if a + i >= s.len() {
    } else {
        assert(s.skip(a)[i] == s[a + i]);
        if s[a + i] != c {
            lemma_index_of_shift(s, c, a, i + 1);
        }
    }
}

/// The line ranges of `v`, as `str::lines` splits it.
pub open spec fn ranges_view(v: Seq<char>, r: Seq<(usize, usize)>) -> Seq<Seq<char>> {
    r.map_values(|b: (usize, usize)| v.subrange(b.0 as int, b.1 as int))
}

// ───────────────────────── executable functions ─────────────────────────

/// Index of the first `c` in `v` at or after `i` (or `v.len()`).
pub fn index_of_exec(v: &Vec<char>, c: char, i: usize) -> (r: usize)
    requires
        i <= v.len(),
    ensures
        r == index_of_from(v@, c, i as int),
{
    let mut k = i;
    while k < v.len() && v[k] != c
        invariant
            i <= k <= v.len(),
            index_of_from(v@, c, i as int) == index_of_from(v@, c, k as int),
        decreases v.len() - k,
    {
        k += 1;
    }
    k
}

/// `(start, end)` bounds of every line of `v`, as `str::lines` splits it.
pub fn line_bounds(v: &Vec<char>) -> (r: Vec<(usize, usize)>)
    ensures
        forall|k: int| 0 <= k < r.len() ==> (#[trigger] r@[k]).0 <= r@[k].1 <= v.len(),
        ranges_view(v@, r@) == lines(v@),
{
    let mut r: Vec<(usize, usize)> = Vec::new();
    let mut start: usize = 0;
    assert(v@.skip(0) == v@);
    while start < v.len()
        invariant
            start <= v.len(),
            forall|k: int| 0 <= k < r.len() ==> (#[trigger] r@[k]).0 <= r@[k].1 <= v.len(),
            lines(v@) == ranges_view(v@, r@) + lines(v@.skip(start as int)),
        decreases v.len() - start,
    {
        let i = index_of_exec(v, '\n', start);
        proof {
            lemma_index_of_shift(v@, '\n', start as int, 0);
            lemma_index_of_props(v@, '\n', start as int);
        }
        let ghost rest = v@.skip(start as int);
        let ghost old_r = r@;
        if i < v.len() {
            let end = if i > start && v[i - 1] == '\r' { i - 1 } else { i };
            r.push((start, end));
            proof {
                assert(rest.take(i - start) == v@.subrange(start as int, i as int));
                assert(strip_cr(rest.take(i - start)) == v@.subrange(start as int, end as int));
                assert(rest.skip(i - start + 1) == v@.skip(i + 1));
                assert(ranges_view(v@, r@) == ranges_view(v@, old_r).push(
                    v@.subrange(start as int, end as int),
                ));
                assert(lines(rest) == seq![v@.subrange(start as int, end as int)] + lines(
                    v@.skip(i + 1),
                ));
            }
            start = i + 1;
        } else {
            r.push((start, v.len()));
            proof {
                assert(rest == v@.subrange(start as int, v.len() as int));
                assert(ranges_view(v@, r@) == ranges_view(v@, old_r).push(rest));
                assert(lines(rest) == seq![rest]);
                assert(v@.skip(v.len() as int).len() == 0);
            }
            start = v.len();
        }
    }
    proof {
        assert(v@.skip(start as int).len() == 0);
        assert(lines(v@.skip(start as int)) == Seq::<Seq<char>>::empty());
    }
    r
}

#[verifier::external_body]
/// `String::push`: appends one character.
pub(crate) fn string_push(s: &mut String, c: char)
    ensures
        final(s)@ == old(s)@.push(c),
{
    s.push(c)
}

#[verifier::external_body]
/// `String::push_str`: appends a string slice.
pub(crate) fn string_push_str(s: &mut String, t: &str)
    ensures
        final(s)@ == old(s)@ + t@,
{
    s.push_str(t)
}

/// The characters of a string slice.
pub fn chars_of(s: &str) -> (r: Vec<char>)
    ensures
        r@ == s@,
{
    let mut v: Vec<char> = Vec::new();
    for c in it: s.chars()
        invariant
            v@ == it.seq().take(it.index() as int),
            it.seq() == s@,
    {
        v.push(c);
    }
    v
}

/// A `String` made of `v[a..b]`.
pub fn string_of_range(v: &Vec<char>, a: usize, b: usize) -> (r: String)
    requires
        a <= b <= v.len(),
    ensures
        r@ == v@.subrange(a as int, b as int),
{
    let mut s = String::new();
    let mut i: usize = a;
    while i < b
        invariant
            a <= i <= b <= v.len(),
            s@ == v@.subrange(a as int, i as int),
        decreases b - i,
    {
        string_push(&mut s, v[i]);
        assert(v@.subrange(a as int, i + 1) == v@.subrange(a as int, i as int).push(v@[i as int]));
        i += 1;
    }
    s
}

/// A `String` made of all of `v`.
pub fn string_of(v: &Vec<char>) -> (r: String)
    ensures
        r@ == v@,
{
    let r = string_of_range(v, 0, v.len());
    assert(v@.subrange(0, v@.len() as int) == v@);
    r
}

/// `v[a..b]` as a new vector.
pub fn vec_range(v: &Vec<char>, a: usize, b: usize) -> (r: Vec<char>)
    requires
        a <= b <= v.len(),
    ensures
        r@ == v@.subrange(a as int, b as int),
{
    let mut r: Vec<char> = Vec::new();
    let mut i: usize = a;
    while i < b
        invariant
            a <= i <= b <= v.len(),
            r@ == v@.subrange(a as int, i as int),
        decreases b - i,
    {
        r.push(v[i]);
        assert(v@.subrange(a as int, i + 1) == v@.subrange(a as int, i as int).push(v@[i as int]));
        i += 1;
    }
    r
}

/// Appends `t` to `s`.
pub fn push_all(s: &mut String, t: &String)
    ensures
        final(s)@ == old(s)@ + t@,
{
    string_push_str(s, t.as_str());
}

/// The decimal digit for `d < 10`.
pub fn digit_of(d: usize) -> (r: char)
    requires
        d < 10,
    ensures
        r == digit_char(d as nat),
{
    match d {
        0 => '0',
        1 => '1',
        2 => '2',
        3 => '3',
        4 => '4',
        5 => '5',
        6 => '6',
        7 => '7',
        8 => '8',
        _ => '9',
    }
}

/// Decimal representation of `n`.
pub fn usize_to_string(n: usize) -> (r: String)
    ensures
        r@ == dec(n as nat),
    decreases n,
{
    if n < 10 {
        let mut s = String::new();
        string_push(&mut s, digit_of(n));
        s
    } else {
        let mut s = usize_to_string(n / 10);
        string_push(&mut s, digit_of(n % 10));
        s
    }
}

/// Appends `n` spaces.
pub fn push_spaces(s: &mut String, n: usize)
    ensures
        final(s)@ == old(s)@ + spaces(n as nat),
{
    let mut k: usize = 0;
    while k < n
        invariant
            k <= n,
            s@ == old(s)@ + spaces(k as nat),
        decreases n - k,
    {
        string_push(s, ' ');
        assert(spaces((k + 1) as nat) == spaces(k as nat).push(' '));
        k += 1;
    }
}

/// The strings of `v` joined with `sep`.
pub fn join_strings(v: &Vec<String>, sep: &str) -> (r: String)
    ensures
        r@ == join_seq(v.deep_view(), sep@),
{
    let mut out = String::new();
    let mut i: usize = 0;
    while i < v.len()
        invariant
            i <= v.len(),
            out@ == join_seq(v.deep_view().take(i as int), sep@),
        decreases v.len() - i,
    {
        let ghost prev = v.deep_view().take(i as int);
        if i > 0 {
            string_push_str(&mut out, sep);
        }
        push_all(&mut out, &v[i]);
        proof {
            let next = v.deep_view().take(i + 1);
            assert(next.drop_last() == prev);
            assert(next.last() == v@[i as int]@);
            if i == 0 {
                assert(prev == Seq::<Seq<char>>::empty());
                assert(out@ == next[0]);
            }
        }
        i += 1;
    }
    assert(v.deep_view().take(v.len() as int) == v.deep_view());
    out
}

/// The non-empty pieces of `v` between occurrences of `c`.
pub fn split_nonempty(v: &Vec<char>, c: char) -> (r: Vec<String>)
    ensures
        r.deep_view() == nonempty_parts(split_on(v@, c)),
{
    let ghost target = nonempty_parts(split_on(v@, c));
    let mut r: Vec<String> = Vec::new();
    let mut start: usize = 0;
    assert(v@.skip(0) == v@);
    loop
        invariant
            start <= v.len(),
            target == nonempty_parts(split_on(v@, c)),
            target == r.deep_view() + nonempty_parts(split_on(v@.skip(start as int), c)),
        decreases v.len() - start,
    {
        let k = index_of_exec(v, c, start);
        proof {
            lemma_index_of_shift(v@, c, start as int, 0);
            lemma_index_of_props(v@, c, start as int);
        }
        let ghost rest = v@.skip(start as int);
        let ghost piece = v@.subrange(start as int, k as int);
        let ghost before = r.deep_view();
        if k > start {
            let part = string_of_range(v, start, k);
            r.push(part);
            assert(r.deep_view() =~= before.push(piece));
        }
        proof {
            lemma_nonempty_parts_single(piece);
            assert(r.deep_view() =~= before + nonempty_parts(seq![piece]));
        }
        if k < v.len() {
            proof {
                assert(rest.take(k - start) == piece);
                assert(rest.skip(k - start + 1) == v@.skip(k + 1));
                lemma_nonempty_parts_append(seq![piece], split_on(v@.skip(k + 1), c));
            }
            start = k + 1;
        } else {
            proof {
                assert(rest == piece);
            }
            return r;
        }
    }
}

/// `str::to_lowercase`
#[verifier::external_body]
pub(crate) fn str_to_lowercase(s: &str) -> (r: String)
    ensures
        r@ == lower_of(s@),
{
    s.to_lowercase()
}

/// `str::to_uppercase`
#[verifier::external_body]
pub(crate) fn str_to_uppercase(s: &str) -> (r: String)
    ensures
        r@ == upper_of(s@),
{
    s.to_uppercase()
}

/// `char::to_uppercase`, collected into a string.
#[verifier::external_body]
pub(crate) fn char_to_uppercase(c: char) -> (r: String)
    ensures
        r@ == char_upper_of(c),
{
    c.to_uppercase().collect()
}

/// `char::is_alphanumeric`
#[verifier::external_body]
pub(crate) fn char_is_alphanumeric(c: char) -> (r: bool)
    ensures
        r == is_alnum_unicode(c),
{
    c.is_alphanumeric()
}

/// `char::is_whitespace`
pub fn char_is_ws(c: char) -> (r: bool)
    ensures
        r == is_ws(c),
{
    ('\t' <= c && c <= '\r') || c == ' ' || c == '\u{85}' || c == '\u{a0}' || c == '\u{1680}'
        || ('\u{2000}' <= c && c <= '\u{200a}') || c == '\u{2028}' || c == '\u{2029}' || c
        == '\u{202f}' || c == '\u{205f}' || c == '\u{3000}'
}

/// `char::is_ascii_alphanumeric`
pub fn char_is_ascii_alnum(c: char) -> (r: bool)
    ensures
        r == is_ascii_alnum(c),
{
    ('a' <= c && c <= 'z') || ('A' <= c && c <= 'Z') || ('0' <= c && c <= '9')
}

/// `char::len_utf8`
pub fn char_utf8_len(c: char) -> (r: usize)
    ensures
        r == utf8_len(c),
{
    if (c as u32) < 0x80 {
        1
    } else if (c as u32) < 0x800 {
        2
    } else if (c as u32) < 0x10000 {
        3
    } else {
        4
    }
}

/// Index of the first non-whitespace character of `v[a..b]` (or `b`).
pub fn skip_ws_fwd(v: &Vec<char>, a: usize, b: usize) -> (r: usize)
    requires
        a <= b <= v.len(),
    ensures
        a <= r <= b,
        r - a == lead_ws(v@.subrange(a as int, b as int)),
{
    let mut i = a;
    while i < b && char_is_ws(v[i])
        invariant
            a <= i <= b <= v.len(),
            forall|j: int| a <= j < i ==> is_ws(#[trigger] v@[j]),
        decreases b - i,
    {
        i += 1;
    }
    proof {
        let s = v@.subrange(a as int, b as int);
        assert forall|j: int| 0 <= j < i - a implies is_ws(#[trigger] s[j]) by {
            assert(s[j] == v@[a + j]);
        }
        if i < b {
            assert(s[i - a] == v@[i as int]);
        }
        lemma_lead_ws_unique(s, i - a);
    }
    i
}

/// Index just after the last non-whitespace character of `v[a..b]` (or `a`).
pub fn skip_ws_back(v: &Vec<char>, a: usize, b: usize) -> (r: usize)
    requires
        a <= b <= v.len(),
    ensures
        a <= r <= b,
        b - r == trail_ws(v@.subrange(a as int, b as int)),
{
    let mut i = b;
    while i > a && char_is_ws(v[i - 1])
        invariant
            a <= i <= b <= v.len(),
            forall|j: int| i <= j < b ==> is_ws(#[trigger] v@[j]),
        decreases i - a,
    {
        i -= 1;
    }
    proof {
        let s = v@.subrange(a as int, b as int);
        assert forall|j: int| s.len() - (b - i) <= j < s.len() implies is_ws(#[trigger] s[j]) by {
            assert(s[j] == v@[a + j]);
        }
        if i > a {
            assert(s[s.len() - (b - i) - 1] == v@[i - 1]);
        }
        lemma_trail_ws_unique(s, (b - i) as int);
    }
    i
}

/// Bounds `(x, y)` such that `v[x..y]` is `trim(v[a..b])`.
pub fn trim_bounds(v: &Vec<char>, a: usize, b: usize) -> (r: (usize, usize))
    requires
        a <= b <= v.len(),
    ensures
        a <= r.0 <= r.1 <= b,
        v@.subrange(r.0 as int, r.1 as int) == trim(v@.subrange(a as int, b as int)),
        r.0 - a == lead_ws(v@.subrange(a as int, b as int)),
{
    let x = skip_ws_fwd(v, a, b);
    let y = skip_ws_back(v, x, b);
    proof {
        let s = v@.subrange(a as int, b as int);
        let t = trim_start(s);
        assert(t == v@.subrange(x as int, b as int));
        assert(trim_end(t) == t.take(t.len() - trail_ws(t)));
        assert(v@.subrange(x as int, y as int) == t.take(y - x));
    }
    (x, y)
}

/// `trim(v[a..b])` as a `String`.
pub fn trimmed_string(v: &Vec<char>, a: usize, b: usize) -> (r: String)
    requires
        a <= b <= v.len(),
    ensures
        r@ == trim(v@.subrange(a as int, b as int)),
{
    let (x, y) = trim_bounds(v, a, b);
    string_of_range(v, x, y)
}

/// Whether `p` occurs in `v` at `i`.
pub fn occurs_at_exec(v: &Vec<char>, p: &Vec<char>, i: usize) -> (r: bool)
    ensures
        r == occurs_at(v@, p@, i as int),
{
    if i > v.len() || p.len() > v.len() - i {
        return false;
    }
    let mut k: usize = 0;
    while k < p.len()
        invariant
            i + p.len() <= v.len(),
            k <= p.len(),
            forall|j: int| 0 <= j < k ==> v@[i + j] == p@[j],
        decreases p.len() - k,
    {
        if v[i + k] != p[k] {
            assert(v@.subrange(i as int, i + p.len())[k as int] != p@[k as int]);
            return false;
        }
        k += 1;
    }
    assert(v@.subrange(i as int, i + p.len()) =~= p@);
    true
}

/// `find_from(v, p, i)`.
pub fn find_exec(v: &Vec<char>, p: &Vec<char>, i: usize) -> (r: Option<usize>)
    ensures
        match r {
            Some(k) => find_from(v@, p@, i as int) == Some(k as int),
            None => find_from(v@, p@, i as int) is None,
        },
{
    let mut k = i;
    while k <= v.len()
        invariant
            i <= k,
            find_from(v@, p@, i as int) == find_from(v@, p@, k as int),
        decreases v.len() + 1 - k,
    {
        if p.len() > v.len() - k {
            return None;
        }
        if occurs_at_exec(v, p, k) {
            return Some(k);
        }
        if k >= v.len() {
            return None;
        }
        k += 1;
    }
    None
}

/// `starts_with(v[a..b], p)`.
pub fn starts_with_at(v: &Vec<char>, a: usize, b: usize, p: &Vec<char>) -> (r: bool)
    requires
        a <= b <= v.len(),
    ensures
        r == starts_with(v@.subrange(a as int, b as int), p@),
{
    if p.len() > b - a {
        return false;
    }
    let r = occurs_at_exec(v, p, a);
    proof {
        let s = v@.subrange(a as int, b as int);
        assert(s.take(p@.len() as int) == v@.subrange(a as int, a + p@.len()));
    }
    r
}

/// `ends_with(v[a..b], p)`.
pub fn ends_with_at(v: &Vec<char>, a: usize, b: usize, p: &Vec<char>) -> (r: bool)
    requires
        a <= b <= v.len(),
    ensures
        r == ends_with(v@.subrange(a as int, b as int), p@),
{
    if p.len() > b - a {
        return false;
    }
    let r = occurs_at_exec(v, p, b - p.len());
    proof {
        let s = v@.subrange(a as int, b as int);
        assert(s.skip(s.len() - p@.len()) == v@.subrange(b - p@.len(), b as int));
    }
    r
}

/// Whether `v[a..b]` equals `p`.
pub fn range_eq(v: &Vec<char>, a: usize, b: usize, p: &Vec<char>) -> (r: bool)
    requires
        a <= b <= v.len(),
    ensures
        r == (v@.subrange(a as int, b as int) == p@),
{
    if p.len() != b - a {
        return false;
    }
    let r = occurs_at_exec(v, p, a);
    r
}

/// Byte length (UTF-8) of `v[a..b]`.
pub fn byte_len_range(v: &Vec<char>, a: usize, b: usize) -> (r: usize)
    requires
        a <= b <= v.len(),
        byte_len(v@.subrange(a as int, b as int)) <= usize::MAX,
    ensures
        r == byte_len(v@.subrange(a as int, b as int)),
{
    let mut n: usize = 0;
    let mut i = a;
    while i < b
        invariant
            a <= i <= b <= v.len(),
            n == byte_len(v@.subrange(a as int, i as int)),
            byte_len(v@.subrange(a as int, b as int)) <= usize::MAX,
        decreases b - i,
    {
        proof {
            assert(v@.subrange(a as int, i + 1) == v@.subrange(a as int, i as int).push(v@[i as int]));
            lemma_byte_len_push(v@.subrange(a as int, i as int), v@[i as int]);
            assert(v@.subrange(a as int, b as int) == v@.subrange(a as int, i + 1) + v@.subrange(
                i + 1,
                b as int,
            ));
            lemma_byte_len_append(v@.subrange(a as int, i + 1), v@.subrange(i + 1, b as int));
        }
        n = n + char_utf8_len(v[i]);
        i += 1;
    }
    n
}


// ───────────────────────── unsigned decimal parsing ─────────────────────────

/// The value of a string of ASCII digits.
pub open spec fn digits_value(d: Seq<char>) -> nat
    decreases d.len(),
{
    if d.len() == 0 {
        0
    } else {
        digits_value(d.drop_last()) * 10 + (d.last() as int - 48) as nat
    }
}

/// Whether every character of `d` is an ASCII digit.
pub open spec fn all_digits(d: Seq<char>) -> bool {
    forall|i: int| 0 <= i < d.len() ==> is_ascii_digit(#[trigger] d[i])
}

/// What `str::parse` gives for an unsigned integer type whose largest value
/// is `max`: an optional `+`, then at least one ASCII digit, with a value that
/// fits.
pub open spec fn parse_unsigned(s: Seq<char>, max: nat) -> Option<nat> {
    let d = if s.len() > 0 && s[0] == '+' {
        s.skip(1)
    } else {
        s
    };
    if d.len() > 0 && all_digits(d) && digits_value(d) <= max {
        Some(digits_value(d))
    } else {
        None
    }
}

proof fn lemma_digits_value_prefix(d: Seq<char>, i: int)
    requires
        0 <= i <= d.len(),
        all_digits(d),
    ensures
        digits_value(d.take(i)) <= digits_value(d),
    decreases d.len() - i,
{
    if i < d.len() {
        lemma_digits_value_prefix(d, i + 1);
        assert(d.take(i + 1).drop_last() == d.take(i));
        assert(is_ascii_digit(d[i]));
    } else {
        assert(d.take(i) == d);
    }
}

/// `str::parse` on the characters `v` for an unsigned integer no larger than
/// `max`.
pub fn parse_unsigned_chars(v: &Vec<char>, max: u64) -> (r: Option<u64>)
    ensures
        match r {
            Some(n) => parse_unsigned(v@, max as nat) == Some(n as nat),
            None => parse_unsigned(v@, max as nat) is None,
        },
{
    let start: usize = if v.len() > 0 && v[0] == '+' {
        1
    } else {
        0
    };
    let ghost d = if v@.len() > 0 && v@[0] == '+' {
        v@.skip(1)
    } else {
        v@
    };
    assert(d == v@.skip(start as int));
    if start >= v.len() {
        return None;
    }
    let mut value: u64 = 0;
    let mut i: usize = start;
    while i < v.len()
        invariant
            start <= i <= v.len(),
            d == v@.skip(start as int),
            d == (if v@.len() > 0 && v@[0] == '+' {
                v@.skip(1)
            } else {
                v@
            }),
            value as nat == digits_value(d.take(i - start)),
            all_digits(d.take(i - start)),
            value <= max,
        decreases v.len() - i,
    {
        let c = v[i];
        assert(d[i - start] == c);
        if c < '0' || c > '9' {
            assert(!all_digits(d)) by {
                assert(!is_ascii_digit(d[i - start]));
            }
            return None;
        }
        let digit: u64 = (c as u32 - 48) as u64;
        proof {
            assert(d.take(i - start + 1).drop_last() == d.take(i - start));
            assert(d.take(i - start + 1).last() == c);
            assert forall|j: int| 0 <= j < i - start + 1 implies is_ascii_digit(
                #[trigger] d.take(i - start + 1)[j],
            ) by {
                if j < i - start {
                    assert(d.take(i - start + 1)[j] == d.take(i - start)[j]);
                }
            }
        }
        if digit > max || value > (max - digit) / 10 {
            proof {
                assert(value * 10 + digit > max) by (nonlinear_arith)
                    requires
                        digit > max || value > (max - digit) / 10,
                        digit <= 9,
                {
                }
                if all_digits(d) {
                    lemma_digits_value_prefix(d, i - start + 1);
                }
            }
            return None;
        }
        assert(value * 10 + digit <= max) by (nonlinear_arith)
            requires
                value <= (max - digit) / 10,
                digit <= max,
                digit <= 9,
        {
        }
        value = value * 10 + digit;
        i += 1;
    }
    assert(d.take(v.len() - start) == d);
    Some(value)
}

/// `str::parse` for an unsigned integer no larger than `max`.
pub fn parse_unsigned_exec(s: &str, max: u64) -> (r: Option<u64>)
    ensures
        match r {
            Some(v) => parse_unsigned(s@, max as nat) == Some(v as nat),
            None => parse_unsigned(s@, max as nat) is None,
        },
{
    let v = chars_of(s);
    parse_unsigned_chars(&v, max)
}

// ───────────────────────── string order ─────────────────────────

/// A list of string pairs, as character sequences.
pub open spec fn pairs_view(v: Seq<(String, String)>) -> Seq<(Seq<char>, Seq<char>)> {
    v.map_values(|p: (String, String)| (p.0@, p.1@))
}

/// An optional string as an optional character sequence.
pub open spec fn opt_view(o: Option<String>) -> Option<Seq<char>> {
    match o {
        Some(s) => Some(s@),
        None => None,
    }
}

/// Lexicographic order of strings by code point, as `str`'s `Ord` orders them
/// (UTF-8 keeps code point order byte by byte).
pub open spec fn str_lt(a: Seq<char>, b: Seq<char>) -> bool
    decreases a.len(),
{
    if a.len() == 0 {
        b.len() > 0
    } else if b.len() == 0 {
        false
    } else if a[0] != b[0] {
        a[0] < b[0]
    } else {
        str_lt(a.skip(1), b.skip(1))
    }
}

pub proof fn lemma_str_lt_irreflexive(a: Seq<char>)
    ensures
        !str_lt(a, a),
    decreases a.len(),
{
    if a.len() > 0 {
        lemma_str_lt_irreflexive(a.skip(1));
    }
}

pub proof fn lemma_str_lt_asymmetric(a: Seq<char>, b: Seq<char>)
    ensures
        !(str_lt(a, b) && str_lt(b, a)),
    decreases a.len(),
{
    if a.len() > 0 && b.len() > 0 && a[0] == b[0] {
        lemma_str_lt_asymmetric(a.skip(1), b.skip(1));
    }
}

pub proof fn lemma_str_lt_transitive(a: Seq<char>, b: Seq<char>, c: Seq<char>)
    requires
        str_lt(a, b),
        str_lt(b, c),
    ensures
        str_lt(a, c),
    decreases a.len(),
{
    if a.len() > 0 && b.len() > 0 && c.len() > 0 && a[0] == b[0] && b[0] == c[0] {
        lemma_str_lt_transitive(a.skip(1), b.skip(1), c.skip(1));
    }
}

pub proof fn lemma_str_lt_total(a: Seq<char>, b: Seq<char>)
    requires
        a != b,
    ensures
        str_lt(a, b) || str_lt(b, a),
    decreases a.len(),
{
    if a.len() == 0 {
        if b.len() == 0 {
            assert(a =~= b);
        }
    } else if b.len() > 0 && a[0] == b[0] {
        if a.skip(1) == b.skip(1) {
            assert(a == seq![a[0]] + a.skip(1));
            assert(b == seq![b[0]] + b.skip(1));
        }
        lemma_str_lt_total(a.skip(1), b.skip(1));
    }
}

/// Whether `a` comes before `b` in code point order.
pub fn str_lt_exec(a: &Vec<char>, b: &Vec<char>) -> (r: bool)
    ensures
        r == str_lt(a@, b@),
{
    let mut i: usize = 0;
    assert(a@.skip(0) == a@ && b@.skip(0) == b@);
    while i < a.len() && i < b.len() && a[i] == b[i]
        invariant
            i <= a.len(),
            i <= b.len(),
            str_lt(a@, b@) == str_lt(a@.skip(i as int), b@.skip(i as int)),
        decreases a.len() - i,
    {
        assert(a@.skip(i as int).skip(1) == a@.skip(i + 1));
        assert(b@.skip(i as int).skip(1) == b@.skip(i + 1));
        i += 1;
    }
    if i == a.len() {
        i < b.len()
    } else if i == b.len() {
        false
    } else {
        a[i] < b[i]
    }
}

/// Every string of `s` comes before every later one.
pub open spec fn strictly_sorted(s: Seq<Seq<char>>) -> bool {
    forall|i: int, j: int| 0 <= i < j < s.len() ==> str_lt(#[trigger] s[i], #[trigger] s[j])
}

/// The strings of a finite set in increasing order.
pub open spec fn sorted_of(set: Set<Seq<char>>) -> Seq<Seq<char>> {
    choose|s: Seq<Seq<char>>| strictly_sorted(s) && s.to_set() == set
}

/// Two increasing sequences of the same strings are the same sequence.
pub proof fn lemma_sorted_unique(s1: Seq<Seq<char>>, s2: Seq<Seq<char>>)
    requires
        strictly_sorted(s1),
        strictly_sorted(s2),
        s1.to_set() == s2.to_set(),
    ensures
        s1 == s2,
    decreases s1.len(),
{
    if s1.len() == 0 {
        if s2.len() > 0 {
            assert(s2.to_set().contains(s2[0]));
        }
    } else {
        assert(s1.to_set().contains(s1[0]));
        assert(s2.len() > 0);
        assert(s2.to_set().contains(s2[0]));
        let j = choose|j: int| 0 <= j < s1.len() && s1[j] == s2[0];
        let k = choose|k: int| 0 <= k < s2.len() && s2[k] == s1[0];
        if j > 0 && k > 0 {
            assert(str_lt(s1[0], s1[j]));
            assert(str_lt(s2[0], s2[k]));
            lemma_str_lt_asymmetric(s1[0], s2[0]);
        }
        assert(s1[0] == s2[0]) by {
            if j > 0 {
                assert(str_lt(s1[0], s1[j]));
                if k > 0 {
                } else {
                    assert(s2[0] == s1[0]);
                }
            }
        }
        let t1 = s1.skip(1);
        let t2 = s2.skip(1);
        assert forall|x: Seq<char>| t1.to_set().contains(x) implies t2.to_set().contains(x) by {
            let a = choose|a: int| 0 <= a < t1.len() && t1[a] == x;
            assert(s1[a + 1] == x);
            assert(str_lt(s1[0], s1[a + 1]));
            lemma_str_lt_irreflexive(x);
            assert(s2.to_set().contains(x));
            let b = choose|b: int| 0 <= b < s2.len() && s2[b] == x;
            assert(b != 0);
            assert(t2[b - 1] == x);
        }
        assert forall|x: Seq<char>| t2.to_set().contains(x) implies t1.to_set().contains(x) by {
            let a = choose|a: int| 0 <= a < t2.len() && t2[a] == x;
            assert(s2[a + 1] == x);
            assert(str_lt(s2[0], s2[a + 1]));
            lemma_str_lt_irreflexive(x);
            assert(s1.to_set().contains(x));
            let b = choose|b: int| 0 <= b < s1.len() && s1[b] == x;
            assert(b != 0);
            assert(t1[b - 1] == x);
        }
        assert(t1.to_set() == t2.to_set());
        assert forall|i: int, j: int| 0 <= i < j < t1.len() implies str_lt(
            #[trigger] t1[i],
            #[trigger] t1[j],
        ) by {
            assert(t1[i] == s1[i + 1] && t1[j] == s1[j + 1]);
        }
        assert forall|i: int, j: int| 0 <= i < j < t2.len() implies str_lt(
            #[trigger] t2[i],
            #[trigger] t2[j],
        ) by {
            assert(t2[i] == s2[i + 1] && t2[j] == s2[j + 1]);
        }
        lemma_sorted_unique(t1, t2);
        assert(s1 == seq![s1[0]] + t1);
        assert(s2 == seq![s2[0]] + t2);
    }
}

/// An increasing sequence is the sorted form of its set.
pub proof fn lemma_sorted_of(s: Seq<Seq<char>>)
    requires
        strictly_sorted(s),
    ensures
        sorted_of(s.to_set()) == s,
{
    let t = sorted_of(s.to_set());
    assert(strictly_sorted(t) && t.to_set() == s.to_set());
    lemma_sorted_unique(t, s);
}

proof fn lemma_min_exists(s: Set<Seq<char>>) -> (m: Seq<char>)
    requires
        s.finite(),
        s.len() > 0,
    ensures
        s.contains(m),
        forall|y: Seq<char>| s.contains(y) && y != m ==> str_lt(m, y),
    decreases s.len(),
{
    broadcast use vstd::set::group_set_axioms;

    vstd::set_lib::lemma_set_empty_equivalency_len(s);
    let x = s.choose();
    let rest = s.remove(x);
    if rest.len() == 0 {
        vstd::set_lib::lemma_set_empty_equivalency_len(rest);
        assert forall|y: Seq<char>| s.contains(y) && y != x implies str_lt(x, y) by {
            assert(rest.contains(y));
        }
        x
    } else {
        let m2 = lemma_min_exists(rest);
        if str_lt(x, m2) {
            assert forall|y: Seq<char>| s.contains(y) && y != x implies str_lt(x, y) by {
                assert(rest.contains(y));
                if y != m2 {
                    lemma_str_lt_transitive(x, m2, y);
                }
            }
            x
        } else {
            lemma_str_lt_total(x, m2);
            m2
        }
    }
}

/// Every finite set of strings has its sorted form.
pub proof fn lemma_sorted_of_set(s: Set<Seq<char>>)
    requires
        s.finite(),
    ensures
        strictly_sorted(sorted_of(s)),
        sorted_of(s).to_set() == s,
    decreases s.len(),
{
    broadcast use vstd::set::group_set_axioms;

    if s.len() == 0 {
        vstd::set_lib::lemma_set_empty_equivalency_len(s);
        let e = Seq::<Seq<char>>::empty();
        assert(e.to_set() =~= s);
        lemma_sorted_of(e);
    } else {
        let m = lemma_min_exists(s);
        let rest = s.remove(m);
        lemma_sorted_of_set(rest);
        let t = sorted_of(rest);
        let w = seq![m] + t;
        assert forall|i: int, j: int| 0 <= i < j < w.len() implies str_lt(
            #[trigger] w[i],
            #[trigger] w[j],
        ) by {
            if i == 0 {
                assert(w[j] == t[j - 1]);
                assert(t.to_set().contains(t[j - 1]));
            } else {
                assert(w[i] == t[i - 1] && w[j] == t[j - 1]);
            }
        }
        assert forall|y: Seq<char>| w.to_set().contains(y) <==> s.contains(y) by {
            if w.to_set().contains(y) {
                let i = choose|i: int| 0 <= i < w.len() && w[i] == y;
                if i > 0 {
                    assert(t[i - 1] == y);
                    assert(t.to_set().contains(y));
                }
            }
            if s.contains(y) {
                if y == m {
                    assert(w[0] == y);
                } else {
                    assert(rest.contains(y));
                    let i = choose|i: int| 0 <= i < t.len() && t[i] == y;
                    assert(w[i + 1] == y);
                }
            }
        }
        assert(w.to_set() =~= s);
        lemma_sorted_of(w);
    }
}

// ───────────────────────── character mapping ─────────────────────────

/// Each character of `s` replaced by the string `f` gives for it.
pub open spec fn flat_map_chars(s: Seq<char>, f: spec_fn(char) -> Seq<char>) -> Seq<char>
    decreases s.len(),
{
    if s.len() == 0 {
        Seq::empty()
    } else {
        flat_map_chars(s.drop_last(), f) + f(s.last())
    }
}

/// `s` with every `from` replaced by `to` (`str::replace` on characters).
pub open spec fn replace_char(s: Seq<char>, from: char, to: char) -> Seq<char> {
    s.map_values(|c: char| if c == from {
        to
    } else {
        c
    })
}

/// The longest prefix of `s` whose UTF-8 encoding takes at most `n` bytes.
pub open spec fn take_bytes(s: Seq<char>, n: nat) -> Seq<char>
    decreases s.len(),
{
    if s.len() == 0 || utf8_len(s[0]) > n {
        Seq::empty()
    } else {
        seq![s[0]] + take_bytes(s.skip(1), (n - utf8_len(s[0])) as nat)
    }
}

/// `take_bytes(s, n)` holds at most `n` bytes.
pub proof fn lemma_take_bytes_len(s: Seq<char>, n: nat)
    ensures
        byte_len(take_bytes(s, n)) <= n,
    decreases s.len(),
{
    if !(s.len() == 0 || utf8_len(s[0]) > n) {
        let rest = take_bytes(s.skip(1), (n - utf8_len(s[0])) as nat);
        lemma_take_bytes_len(s.skip(1), (n - utf8_len(s[0])) as nat);
        assert((seq![s[0]] + rest).drop_first() == rest);
        assert((seq![s[0]] + rest)[0] == s[0]);
    }
}

/// The prefix of `v` that `take_bytes` gives, as a string.
pub fn take_bytes_exec(v: &Vec<char>, n: usize) -> (r: String)
    ensures
        r@ == take_bytes(v@, n as nat),
{
    let mut i: usize = 0;
    let mut left: usize = n;
    assert(v@.take(0) + v@.skip(0) == v@);
    while i < v.len() && char_utf8_len(v[i]) <= left
        invariant
            i <= v.len(),
            left <= n,
            take_bytes(v@, n as nat) == v@.take(i as int) + take_bytes(v@.skip(i as int), left as nat),
        decreases v.len() - i,
    {
        let l = char_utf8_len(v[i]);
        proof {
            let rest = v@.skip(i as int);
            assert(rest[0] == v@[i as int]);
            assert(rest.skip(1) == v@.skip(i + 1));
            assert(v@.take(i + 1) == v@.take(i as int) + seq![v@[i as int]]);
        }
        left = left - l;
        i += 1;
    }
    proof {
        let rest = v@.skip(i as int);
        if i < v.len() {
            assert(rest[0] == v@[i as int]);
        }
        assert(take_bytes(rest, left as nat) == Seq::<char>::empty());
    }
    string_of_range(v, 0, i)
}

/// One step of `split_on` from position `start`: the piece up to the next
/// `c`, then the pieces after it.
pub proof fn lemma_split_step(v: Seq<char>, c: char, start: int)
    requires
        0 <= start <= v.len(),
    ensures
        start <= index_of_from(v, c, start) <= v.len(),
        index_of_from(v, c, start) < v.len() ==> split_on(v.skip(start), c) == seq![
            v.subrange(start, index_of_from(v, c, start)),
        ] + split_on(v.skip(index_of_from(v, c, start) + 1), c),
        index_of_from(v, c, start) == v.len() ==> split_on(v.skip(start), c) == seq![
            v.subrange(start, v.len() as int),
        ],
{
    lemma_index_of_shift(v, c, start, 0);
    lemma_index_of_props(v, c, start);
    let k = index_of_from(v, c, start);
    let rest = v.skip(start);
    if k < v.len() {
        assert(rest.take(k - start) == v.subrange(start, k));
        assert(rest.skip(k - start + 1) == v.skip(k + 1));
    } else {
        assert(rest == v.subrange(start, v.len() as int));
    }
}

/// Decimal representation of `n`.
pub fn u64_to_string(n: u64) -> (r: String)
    ensures
        r@ == dec(n as nat),
    decreases n,
{
    if n < 10 {
        let mut s = String::new();
        string_push(&mut s, digit_of(n as usize));
        s
    } else {
        let mut s = u64_to_string(n / 10);
        string_push(&mut s, digit_of((n % 10) as usize));
        s
    }
}

/// Decimal representation of a signed integer, with `-` when negative.
pub fn i64_to_string(x: i64) -> (r: String)
    ensures
        r@ == (if x < 0 {
            "-"@ + dec((-x) as nat)
        } else {
            dec(x as nat)
        }),
{
    if x < 0 {
        let mag: u64 = (0i128 - x as i128) as u64;
        let mut s = "-".to_owned();
        let d = u64_to_string(mag);
        push_all(&mut s, &d);
        s
    } else {
        u64_to_string(x as u64)
    }
}

/// The UTF-8 length of `v`, or any value of at least `cap` when it is no
/// smaller than `cap`.
pub fn byte_len_range_capped(v: &Vec<char>, cap: usize) -> (r: usize)
    requires
        cap <= usize::MAX - 8,
    ensures
        r < cap ==> r == byte_len(v@),
        r >= cap ==> byte_len(v@) >= cap,
{
    let mut n: usize = 0;
    let mut i: usize = 0;
    while i < v.len() && n < cap
        invariant
            i <= v.len(),
            n == byte_len(v@.take(i as int)),
            n < cap + 4,
            cap <= usize::MAX - 8,
        decreases v.len() - i,
    {
        proof {
            assert(v@.take(i + 1) == v@.take(i as int).push(v@[i as int]));
            lemma_byte_len_push(v@.take(i as int), v@[i as int]);
        }
        n = n + char_utf8_len(v[i]);
        i += 1;
    }
    proof {
        if n >= cap {
            assert(v@ == v@.take(i as int) + v@.skip(i as int));
            lemma_byte_len_append(v@.take(i as int), v@.skip(i as int));
        } else {
            assert(v@.take(i as int) == v@);
        }
    }
    n
}
} // verus!
