//! Plain-text excerpts of rendered HTML.
use crate::text::{chars_of, is_ascii_alnum, is_ws, push_all, string_of_range, string_push, trim, trim_bounds};
use vstd::prelude::*;

verus! {

/// The text an HTML entity stands for: the common named entities and `&#39;`
/// are decoded, any other entity is kept as written.
pub open spec fn entity_text(e: Seq<char>) -> Seq<char> {
    if e == "&amp;"@ {
        seq!['&']
    } else if e == "&lt;"@ {
        seq!['<']
    } else if e == "&gt;"@ {
        seq!['>']
    } else if e == "&quot;"@ {
        seq!['"']
    } else if e == "&#39;"@ || e == "&apos;"@ {
        seq!['\'']
    } else if e == "&nbsp;"@ {
        seq![' ']
    } else {
        e
    }
}

/// A character that can continue an entity such as `&amp;` or `&#39;`.
pub open spec fn is_entity_char(c: char) -> bool {
    is_ascii_alnum(c) || c == '#' || c == ';'
}

/// The text of `s` from `i` outside tags, entities decoded; `in_tag`,
/// `in_ent` and `ent` are the scanner's state and `res` the text so far.  An
/// `&` that no entity follows is plain text: when a character that cannot
/// continue an entity comes, or the input ends, what was gathered since the
/// `&` is emitted as written and the scan goes on from that character.
pub open spec fn strip_scan(
    s: Seq<char>,
    i: int,
    in_tag: bool,
    in_ent: bool,
    ent: Seq<char>,
    res: Seq<char>,
) -> Seq<char>
    decreases s.len() - i, if in_ent { 1int } else { 0int },
{
    if i < 0 || i >= s.len() {
        if in_ent {
            res + ent
        } else {
            res
        }
    } else {
        let c = s[i];
        if in_ent && !is_entity_char(c) {
            strip_scan(s, i, in_tag, false, ent, res + ent)
        } else if c == '<' {
            strip_scan(s, i + 1, true, in_ent, ent, res)
        } else if c == '>' {
            strip_scan(s, i + 1, false, in_ent, ent, res)
        } else if c == '&' && !in_tag {
            strip_scan(s, i + 1, in_tag, true, seq!['&'], res)
        } else if c == ';' && in_ent {
            strip_scan(s, i + 1, in_tag, false, ent.push(';'), res + entity_text(ent.push(';')))
        } else if in_ent {
            strip_scan(s, i + 1, in_tag, in_ent, ent.push(c), res)
        } else if !in_tag {
            strip_scan(s, i + 1, in_tag, in_ent, ent, res.push(c))
        } else {
            strip_scan(s, i + 1, in_tag, in_ent, ent, res)
        }
    }
}

/// Runs of whitespace replaced by one space.
pub open spec fn compress_ws(s: Seq<char>) -> Seq<char>
    decreases s.len(),
{
    if s.len() == 0 {
        Seq::empty()
    } else {
        let p = compress_ws(s.drop_last());
        let c = s.last();
        if is_ws(c) {
            if s.len() > 1 && is_ws(s[s.len() - 2]) {
                p
            } else {
                p.push(' ')
            }
        } else {
            p.push(c)
        }
    }
}

/// HTML without its tags, entities decoded and whitespace compressed.
pub open spec fn strip_spec(html: Seq<char>) -> Seq<char> {
    compress_ws(strip_scan(html, 0, false, false, Seq::empty(), Seq::empty()))
}

/// A sentence end where an excerpt may stop.
pub open spec fn is_stop(c: char) -> bool {
    c == '。' || c == '？' || c == '！' || c == '.' || c == '?' || c == '!'
}

/// The last position in `lo..hi` that holds a sentence end.
pub open spec fn last_stop(p: Seq<char>, lo: int, hi: int) -> Option<int>
    decreases hi - lo,
{
    if hi <= lo {
        None
    } else if is_stop(p[hi - 1]) {
        Some(hi - 1)
    } else {
        last_stop(p, lo, hi - 1)
    }
}

proof fn lemma_last_stop_range(p: Seq<char>, lo: int, hi: int)
    ensures
        last_stop(p, lo, hi) matches Some(j) ==> lo <= j < hi && is_stop(p[j]),
    decreases hi - lo,
{
    if hi > lo && !is_stop(p[hi - 1]) {
        lemma_last_stop_range(p, lo, hi - 1);
    }
}

/// The excerpt of `html`: its plain text if at most `max` characters, else
/// the first `max` characters, cut after the last sentence end among the last
/// thirty of them, followed by `…`.
pub open spec fn excerpt_spec(html: Seq<char>, max: nat) -> Seq<char> {
    let plain = trim(strip_spec(html));
    if plain.len() <= max {
        plain
    } else {
        let lo = if max >= 30 {
            max - 30
        } else {
            0
        };
        let end = match last_stop(plain, lo, max as int) {
            Some(i) => i + 1,
            None => max as int,
        };
        plain.take(end).push('…')
    }
}

fn push_entity(out: &mut String, e: &Vec<char>)
    ensures
        final(out)@ == old(out)@ + entity_text(e@),
{
    let amp = chars_of("&amp;");
    let lt = chars_of("&lt;");
    let gt = chars_of("&gt;");
    let quot = chars_of("&quot;");
    let n39 = chars_of("&#39;");
    let apos = chars_of("&apos;");
    let nbsp = chars_of("&nbsp;");
    let n = e.len();
    assert(e@.subrange(0, n as int) == e@);
    if crate::text::range_eq(e, 0, n, &amp) {
        string_push(out, '&');
    } else if crate::text::range_eq(e, 0, n, &lt) {
        string_push(out, '<');
    } else if crate::text::range_eq(e, 0, n, &gt) {
        string_push(out, '>');
    } else if crate::text::range_eq(e, 0, n, &quot) {
        string_push(out, '"');
    } else if crate::text::range_eq(e, 0, n, &n39) || crate::text::range_eq(e, 0, n, &apos) {
        string_push(out, '\'');
    } else if crate::text::range_eq(e, 0, n, &nbsp) {
        string_push(out, ' ');
    } else {
        let t = crate::text::string_of(e);
        push_all(out, &t);
        return;
    }
    assert(old(out)@.push(entity_text(e@)[0]) == old(out)@ + entity_text(e@));
}

/// Removes HTML tags, decodes common entities and compresses whitespace; an
/// `&` that starts no entity is kept with the text after it.
pub fn strip_html_tags(html: &str) -> (r: String)
    ensures
        r@ == strip_spec(html@),
{
    let v = chars_of(html);
    let ghost target = strip_scan(html@, 0, false, false, Seq::empty(), Seq::empty());
    let mut result = String::new();
    let mut in_tag = false;
    let mut in_entity = false;
    let mut entity: Vec<char> = Vec::new();
    let mut i: usize = 0;
    while i < v.len()
        invariant
            i <= v.len(),
            v@ == html@,
            target == strip_scan(v@, i as int, in_tag, in_entity, entity@, result@),
        decreases v.len() - i, if in_entity { 1int } else { 0int },
    {
        let ch = v[i];
        if in_entity && !(crate::text::char_is_ascii_alnum(ch) || ch == '#' || ch == ';') {
            let t = crate::text::string_of(&entity);
            push_all(&mut result, &t);
            in_entity = false;
        } else {
            if ch == '<' {
                in_tag = true;
            } else if ch == '>' {
                in_tag = false;
            } else if ch == '&' && !in_tag {
                in_entity = true;
                entity = Vec::new();
                entity.push(ch);
                assert(entity@ == seq!['&']);
            } else if ch == ';' && in_entity {
                in_entity = false;
                entity.push(ch);
                push_entity(&mut result, &entity);
            } else if in_entity {
                entity.push(ch);
            } else if !in_tag {
                string_push(&mut result, ch);
            }
            i += 1;
        }
    }
    if in_entity {
        let t = crate::text::string_of(&entity);
        push_all(&mut result, &t);
    }
    let rv = chars_of(result.as_str());
    let mut compressed = String::new();
    let mut last_was_space = false;
    let mut k: usize = 0;
    while k < rv.len()
        invariant
            k <= rv.len(),
            rv@ == target,
            compressed@ == compress_ws(rv@.take(k as int)),
            last_was_space == (k > 0 && is_ws(rv@[k - 1])),
        decreases rv.len() - k,
    {
        let ch = rv[k];
        proof {
            let p = rv@.take(k + 1);
            assert(p.drop_last() == rv@.take(k as int));
            assert(p.last() == ch);
            if k > 0 {
                assert(p[p.len() - 2] == rv@[k - 1]);
            }
        }
        if crate::text::char_is_ws(ch) {
            if !last_was_space {
                string_push(&mut compressed, ' ');
                last_was_space = true;
            }
        } else {
            string_push(&mut compressed, ch);
            last_was_space = false;
        }
        k += 1;
    }
    assert(rv@.take(rv.len() as int) == rv@);
    compressed
}

/// A plain-text excerpt of at most `max_chars` characters (plus `…`), cut at a
/// sentence end among the last thirty characters where there is one.
pub fn extract_excerpt(html: &str, max_chars: usize) -> (r: String)
    ensures
        r@ == excerpt_spec(html@, max_chars as nat),
{
    let stripped = strip_html_tags(html);
    let sv = chars_of(stripped.as_str());
    let (a, b) = trim_bounds(&sv, 0, sv.len());
    assert(sv@.subrange(0, sv@.len() as int) == sv@);
    let ghost plain = sv@.subrange(a as int, b as int);
    if b - a <= max_chars {
        return string_of_range(&sv, a, b);
    }
    let lo = if max_chars >= 30 {
        max_chars - 30
    } else {
        0
    };
    let mut end = max_chars;
    let mut i = max_chars;
    while i > lo
        invariant_except_break
            end == max_chars,
        invariant
            lo <= i <= max_chars,
            max_chars < b - a,
            a <= b <= sv.len(),
            plain == sv@.subrange(a as int, b as int),
            last_stop(plain, lo as int, max_chars as int) == last_stop(plain, lo as int, i as int),
        ensures
            end == match last_stop(plain, lo as int, max_chars as int) {
                Some(j) => j + 1,
                None => max_chars as int,
            },
        decreases i - lo,
    {
        let c = sv[a + i - 1];
        assert(plain[i - 1] == c);
        if c == '。' || c == '？' || c == '！' || c == '.' || c == '?' || c == '!' {
            assert(last_stop(plain, lo as int, i as int) == Some(i - 1));
            end = i;
            break;
        }
        i -= 1;
    }
    proof {
        lemma_last_stop_range(plain, lo as int, max_chars as int);
    }
    let mut excerpt = string_of_range(&sv, a, a + end);
    string_push(&mut excerpt, '…');
    assert(plain.take(end as int) == sv@.subrange(a as int, a + end));
    excerpt
}

/// An excerpt never holds more than `max` characters of text, plus the `…`
/// that marks a cut.
pub proof fn law_excerpt_bounded(html: Seq<char>, max: nat)
    ensures
        excerpt_spec(html, max).len() <= max + 1,
{
    let plain = trim(strip_spec(html));
    if plain.len() > max {
        let lo = if max >= 30 {
            max - 30
        } else {
            0
        };
        lemma_last_stop_range(plain, lo as int, max as int);
    }
}

proof fn lemma_stop_chars(c: char)
    ensures
        "。？！.?!"@.contains(c) <==> is_stop(c),
{
    reveal_strlit("。？！.?!");
    let s = "。？！.?!"@;
    if is_stop(c) {
        if c == '。' {
            assert(s[0] == c);
        } else if c == '？' {
            assert(s[1] == c);
        } else if c == '！' {
            assert(s[2] == c);
        } else if c == '.' {
            assert(s[3] == c);
        } else if c == '?' {
            assert(s[4] == c);
        } else {
            assert(s[5] == c);
        }
    }
}

proof fn lemma_last_stop_at(p: Seq<char>, lo: int, hi: int, j: int)
    requires
        lo <= j < hi <= p.len(),
        0 <= lo,
        "。？！.?!"@.contains(p[j]),
        forall|k: int| j < k < hi ==> !"。？！.?!"@.contains(#[trigger] p[k]),
    ensures
        last_stop(p, lo, hi) == Some(j),
    decreases hi - lo,
{
    lemma_stop_chars(p[hi - 1]);
    if hi - 1 > j {
        assert(!"。？！.?!"@.contains(p[hi - 1]));
        lemma_last_stop_at(p, lo, hi - 1, j);
    }
}

/// A long text is cut right after its last sentence end among the last
/// thirty of its first `max` characters: where the plain text is longer than
/// `max` and `j` is such a sentence end (Chinese `。？！` as well as `.?!`)
/// with none after it before `max`, the excerpt is the plain text up to and
/// including `j`, then `…`.
pub proof fn law_excerpt_cuts_at_sentence_end(html: Seq<char>, max: nat, j: int)
    requires
        trim(strip_spec(html)).len() > max,
        (if max >= 30 { max - 30 } else { 0int }) <= j < max,
        "。？！.?!"@.contains(trim(strip_spec(html))[j]),
        forall|k: int| j < k < max ==> !"。？！.?!"@.contains(#[trigger] trim(strip_spec(html))[k]),
    ensures
        excerpt_spec(html, max) == trim(strip_spec(html)).take(j + 1).push('…'),
{
    let plain = trim(strip_spec(html));
    let lo: int = if max >= 30 {
        max - 30
    } else {
        0
    };
    lemma_last_stop_at(plain, lo, max as int, j);
}

/// Without a sentence end among the last thirty of its first `max`
/// characters, a long text is cut at `max` characters, then `…`.
pub proof fn law_excerpt_cuts_at_max(html: Seq<char>, max: nat)
    requires
        trim(strip_spec(html)).len() > max,
        forall|k: int|
            (if max >= 30 { max - 30 } else { 0int }) <= k < max ==> !"。？！.?!"@.contains(
                #[trigger] trim(strip_spec(html))[k],
            ),
    ensures
        excerpt_spec(html, max) == trim(strip_spec(html)).take(max as int).push('…'),
{
    let plain = trim(strip_spec(html));
    let lo: int = if max >= 30 {
        max - 30
    } else {
        0
    };
    lemma_last_stop_none(plain, lo, max as int);
}

proof fn lemma_last_stop_none(p: Seq<char>, lo: int, hi: int)
    requires
        0 <= lo,
        hi <= p.len(),
        forall|k: int| lo <= k < hi ==> !"。？！.?!"@.contains(#[trigger] p[k]),
    ensures
        last_stop(p, lo, hi) is None,
    decreases hi - lo,
{
    if hi > lo {
        assert(!"。？！.?!"@.contains(p[hi - 1]));
        lemma_stop_chars(p[hi - 1]);
        lemma_last_stop_none(p, lo, hi - 1);
    }
}

/// A text of at most `max` characters is its own excerpt, whitespace
/// trimmed, with no `…`.
pub proof fn law_short_text_is_whole_excerpt(html: Seq<char>, max: nat)
    requires
        trim(strip_spec(html)).len() <= max,
    ensures
        excerpt_spec(html, max) == trim(strip_spec(html)),
{
}

} // verus!
