//! Markdown rendering, table of contents, word counts and reading time.
use crate::text::{
    join_seq, lower_of, nonempty_parts, push_all, spaces, split_nonempty, split_on, str_to_lowercase,
    chars_of, join_strings, push_spaces, string_push_str, is_ascii_alnum, is_ws,
};
use pulldown_cmark::{Event, Options, Parser, Tag, TagEnd};
use vstd::prelude::*;

verus! {

// ───────────────────────── Markdown (pulldown-cmark) ─────────────────────────

/// HTML that pulldown-cmark renders from Markdown with tables, footnotes,
/// strikethrough and task lists enabled.
pub uninterp spec fn md_html_of(source: Seq<char>) -> Seq<char>;

/// Renders Markdown to HTML with `pulldown_cmark::Parser::new_ext` and
/// `pulldown_cmark::html::push_html` (tables, footnotes, strikethrough, task
/// lists).  The HTML is named, not written out: it is a function of the source
/// alone.
#[verifier::external_body]
pub fn render_markdown(source: &str) -> (r: String)
    ensures
        r@ == md_html_of(source@),
{
    let mut options = Options::empty();
    options.insert(Options::ENABLE_TABLES);
    options.insert(Options::ENABLE_FOOTNOTES);
    options.insert(Options::ENABLE_STRIKETHROUGH);
    options.insert(Options::ENABLE_TASKLISTS);
    let mut html_output = String::new();
    pulldown_cmark::html::push_html(&mut html_output, Parser::new_ext(source, options));
    html_output
}

/// The events of the Markdown parser that the table of contents reads.
pub enum MdEvent {
    /// The start of a heading of the given level (1 to 6).
    HeadingStart(u8),
    /// The end of a heading.
    HeadingEnd,
    /// Text.
    Text(String),
    /// Inline code.
    Code(String),
    /// Any other event.
    Other,
}

/// The mathematical content of an [`MdEvent`].
pub enum MdEventSpec {
    HeadingStart(u8),
    HeadingEnd,
    Text(Seq<char>),
    Code(Seq<char>),
    Other,
}

impl View for MdEvent {
    type V = MdEventSpec;

    open spec fn view(&self) -> MdEventSpec {
        match self {
            MdEvent::HeadingStart(l) => MdEventSpec::HeadingStart(*l),
            MdEvent::HeadingEnd => MdEventSpec::HeadingEnd,
            MdEvent::Text(t) => MdEventSpec::Text(t@),
            MdEvent::Code(t) => MdEventSpec::Code(t@),
            MdEvent::Other => MdEventSpec::Other,
        }
    }
}

/// The event stream pulldown-cmark produces for `source` (no extensions).
pub uninterp spec fn md_events_of(source: Seq<char>) -> Seq<MdEventSpec>;

/// The events of `pulldown_cmark::Parser::new_ext(source, Options::empty())`,
/// each mapped to an [`MdEvent`].  The sequence is named, not written out.
#[verifier::external_body]
fn markdown_events(source: &str) -> (r: Vec<MdEvent>)
    ensures
        r@.map_values(|e: MdEvent| e@) == md_events_of(source@),
{
    Parser::new_ext(source, Options::empty()).map(|event| match event {
        Event::Start(Tag::Heading { level, .. }) => MdEvent::HeadingStart(level as u8),
        Event::End(TagEnd::Heading(_)) => MdEvent::HeadingEnd,
        Event::Text(text) => MdEvent::Text(text.to_string()),
        Event::Code(code) => MdEvent::Code(code.to_string()),
        _ => MdEvent::Other,
    }).collect()
}

/// The headings of levels 2 to 4, with their text, from an event stream.
pub open spec fn toc_headings(
    ev: Seq<MdEventSpec>,
    i: int,
    in_heading: bool,
    level: u8,
    text: Seq<char>,
    acc: Seq<(u8, Seq<char>)>,
) -> Seq<(u8, Seq<char>)>
    decreases ev.len() - i,
{
    if i < 0 || i >= ev.len() {
        acc
    } else {
        match ev[i] {
            MdEventSpec::HeadingStart(l) => toc_headings(ev, i + 1, true, l, Seq::empty(), acc),
            MdEventSpec::HeadingEnd => toc_headings(
                ev,
                i + 1,
                false,
                level,
                text,
                if 2 <= level <= 4 {
                    acc.push((level, text))
                } else {
                    acc
                },
            ),
            MdEventSpec::Text(t) => toc_headings(
                ev,
                i + 1,
                in_heading,
                level,
                if in_heading {
                    text + t
                } else {
                    text
                },
                acc,
            ),
            MdEventSpec::Code(t) => toc_headings(
                ev,
                i + 1,
                in_heading,
                level,
                if in_heading {
                    text + t
                } else {
                    text
                },
                acc,
            ),
            MdEventSpec::Other => toc_headings(ev, i + 1, in_heading, level, text, acc),
        }
    }
}

/// A heading as an anchor id: lowercased, every character other than an ASCII
/// letter, digit or `-` turned into `-`, runs of `-` collapsed and trimmed.
pub open spec fn heading_slug(text: Seq<char>) -> Seq<char> {
    join_seq(
        nonempty_parts(
            split_on(
                lower_of(text).map_values(
                    |c: char|
                        if is_ascii_alnum(c) || c == '-' {
                            c
                        } else {
                            '-'
                        },
                ),
                '-',
            ),
        ),
        "-"@,
    )
}

/// The list items of a table of contents.
pub open spec fn toc_items(h: Seq<(u8, Seq<char>)>) -> Seq<char>
    decreases h.len(),
{
    if h.len() == 0 {
        Seq::empty()
    } else {
        let (level, text) = h.last();
        toc_items(h.drop_last()) + spaces((2 * (level - 2)) as nat) + "<li><a href=\"#"@
            + heading_slug(text) + "\">"@ + text + "</a></li>\n"@
    }
}

/// The table of contents of a list of headings (`None` when there is none).
pub open spec fn toc_of(h: Seq<(u8, Seq<char>)>) -> Option<Seq<char>> {
    if h.len() == 0 {
        None
    } else {
        Some("<ul class=\"toc-list\">\n"@ + toc_items(h) + "</ul>"@)
    }
}

/// A heading as an anchor id.
fn slugify_heading(text: &str) -> (r: String)
    ensures
        r@ == heading_slug(text@),
{
    let lower = str_to_lowercase(text);
    let lv = chars_of(lower.as_str());
    let mut mapped: Vec<char> = Vec::new();
    let mut i: usize = 0;
    while i < lv.len()
        invariant
            i <= lv.len(),
            mapped@ == lv@.take(i as int).map_values(
                |c: char|
                    if is_ascii_alnum(c) || c == '-' {
                        c
                    } else {
                        '-'
                    },
            ),
        decreases lv.len() - i,
    {
        let c = lv[i];
        let m = if crate::text::char_is_ascii_alnum(c) || c == '-' {
            c
        } else {
            '-'
        };
        mapped.push(m);
        assert(lv@.take(i + 1) == lv@.take(i as int).push(c));
        i += 1;
    }
    assert(lv@.take(lv.len() as int) == lv@);
    let parts = split_nonempty(&mapped, '-');
    join_strings(&parts, "-")
}

/// The table of contents of Markdown source: the headings of levels 2 to 4 as
/// a nested list of links (`None` when there is no such heading).
pub fn extract_toc(source: &str) -> (r: Option<String>)
    ensures
        match r {
            Some(s) => toc_of(toc_headings(md_events_of(source@), 0, false, 0, Seq::empty(), Seq::empty()))
                == Some(s@),
            None => toc_of(toc_headings(md_events_of(source@), 0, false, 0, Seq::empty(), Seq::empty()))
                is None,
        },
{
    let events = markdown_events(source);
    let ghost ev = events@.map_values(|e: MdEvent| e@);
    let ghost target = toc_headings(ev, 0, false, 0, Seq::empty(), Seq::empty());
    let mut headings: Vec<(u8, String)> = Vec::new();
    let mut in_heading = false;
    let mut current_level: u8 = 0;
    let mut current_text = String::new();
    let mut i: usize = 0;
    assert(headings@.map_values(|h: (u8, String)| (h.0, h.1@)) =~= Seq::<(u8, Seq<char>)>::empty());
    while i < events.len()
        invariant
            i <= events.len(),
            forall|j: int| 0 <= j < headings.len() ==> 2 <= (#[trigger] headings@[j]).0 <= 4,
            ev == events@.map_values(|e: MdEvent| e@),
            target == toc_headings(
                ev,
                i as int,
                in_heading,
                current_level,
                current_text@,
                headings@.map_values(|h: (u8, String)| (h.0, h.1@)),
            ),
        decreases events.len() - i,
    {
        let ghost hv = headings@.map_values(|h: (u8, String)| (h.0, h.1@));
        assert(ev[i as int] == events@[i as int]@);
        match &events[i] {
            MdEvent::HeadingStart(level) => {
                in_heading = true;
                current_level = *level;
                current_text = String::new();
            },
            MdEvent::HeadingEnd => {
                in_heading = false;
                if current_level >= 2 && current_level <= 4 {
                    let t = current_text.clone();
                    headings.push((current_level, t));
                    assert(headings@.map_values(|h: (u8, String)| (h.0, h.1@)) =~= hv.push(
                        (current_level, current_text@),
                    ));
                }
            },
            MdEvent::Text(text) => {
                if in_heading {
                    push_all(&mut current_text, text);
                }
            },
            MdEvent::Code(code) => {
                if in_heading {
                    push_all(&mut current_text, code);
                }
            },
            MdEvent::Other => {},
        }
        i += 1;
    }
    let ghost h = headings@.map_values(|h: (u8, String)| (h.0, h.1@));
    if headings.len() == 0 {
        return None;
    }
    let mut toc = String::new();
    string_push_str(&mut toc, "<ul class=\"toc-list\">\n");
    let ghost start = toc@;
    let mut k: usize = 0;
    while k < headings.len()
        invariant
            k <= headings.len(),
            h == headings@.map_values(|h: (u8, String)| (h.0, h.1@)),
            forall|j: int| 0 <= j < headings.len() ==> 2 <= (#[trigger] headings@[j]).0 <= 4,
            toc@ == start + toc_items(h.take(k as int)),
        decreases headings.len() - k,
    {
        let (level, text) = &headings[k];
        let id = slugify_heading(text.as_str());
        push_spaces(&mut toc, 2 * ((*level - 2) as usize));
        string_push_str(&mut toc, "<li><a href=\"#");
        push_all(&mut toc, &id);
        string_push_str(&mut toc, "\">");
        push_all(&mut toc, text);
        string_push_str(&mut toc, "</a></li>\n");
        proof {
            assert(h.take(k + 1).drop_last() == h.take(k as int));
            assert(h.take(k + 1).last() == (*level, text@));
        }
        k += 1;
    }
    assert(h.take(headings.len() as int) == h);
    string_push_str(&mut toc, "</ul>");
    Some(toc)
}

// ───────────────────────── word counts ─────────────────────────

/// A CJK unified ideograph (U+4E00 to U+9FFF).
pub open spec fn is_cjk(c: char) -> bool {
    '\u{4E00}' <= c && c <= '\u{9FFF}'
}

fn is_cjk_char(c: char) -> (r: bool)
    ensures
        r == is_cjk(c),
{
    '\u{4E00}' <= c && c <= '\u{9FFF}'
}

/// A character of an English (space-separated) word: neither whitespace nor
/// a CJK ideograph.
pub open spec fn is_word_char(c: char) -> bool {
    !is_ws(c) && !is_cjk(c)
}

/// Number of words: Chinese is counted by character (each CJK ideograph is
/// one word), English by spaces (each maximal run of characters that are
/// neither whitespace nor CJK is one word).
pub open spec fn word_count(s: Seq<char>) -> nat
    decreases s.len(),
{
    if s.len() == 0 {
        0
    } else {
        let c = s.last();
        let prev = s.drop_last();
        word_count(prev) + if is_cjk(c) {
            1nat
        } else if is_word_char(c) && !(prev.len() > 0 && is_word_char(prev.last())) {
            1nat
        } else {
            0nat
        }
    }
}

pub proof fn lemma_word_count_mono(s: Seq<char>, i: int)
    requires
        0 <= i <= s.len(),
    ensures
        word_count(s.take(i)) <= word_count(s),
    decreases s.len() - i,
{
    if i < s.len() {
        lemma_word_count_mono(s, i + 1);
        assert(s.take(i + 1).drop_last() == s.take(i));
    } else {
        assert(s.take(i) == s);
    }
}

/// A text never has more words than characters.
pub proof fn lemma_word_count_le_len(s: Seq<char>)
    ensures
        word_count(s) <= s.len(),
    decreases s.len(),
{
    if s.len() > 0 {
        lemma_word_count_le_len(s.drop_last());
    }
}

proof fn lemma_word_count_concat(p: Seq<char>, q: Seq<char>)
    requires
        p.len() == 0 || !is_word_char(p.last()),
    ensures
        word_count(p + q) == word_count(p) + word_count(q),
    decreases q.len(),
{
    if q.len() == 0 {
        assert(p + q =~= p);
    } else {
        lemma_word_count_concat(p, q.drop_last());
        assert((p + q).drop_last() =~= p + q.drop_last());
        assert((p + q).last() == q.last());
        if q.len() > 1 {
            assert((p + q.drop_last()).last() == q.drop_last().last());
        } else {
            assert(p + q.drop_last() =~= p);
        }
    }
}

/// Counting the words of two texts joined by a space gives the sum of their
/// counts.
pub proof fn law_word_count_adds_up(a: Seq<char>, b: Seq<char>)
    ensures
        word_count(a + seq![' '] + b) == word_count(a) + word_count(b),
{
    let p = a + seq![' '];
    assert(is_ws(' '));
    lemma_word_count_concat(p, b);
    assert(p.drop_last() =~= a);
    assert(p.last() == ' ');
}

/// Counts words: Chinese by character, English by spaces.
pub fn count_words(text: &str) -> (r: u32)
    requires
        word_count(text@) <= u32::MAX,
    ensures
        r == word_count(text@),
{
    let v = chars_of(text);
    let mut count: u32 = 0;
    let mut in_word = false;
    let mut i: usize = 0;
    while i < v.len()
        invariant
            i <= v.len(),
            v@ == text@,
            word_count(text@) <= u32::MAX,
            count == word_count(v@.take(i as int)),
            in_word == (i > 0 && is_word_char(v@[i - 1])),
        decreases v.len() - i,
    {
        let ch = v[i];
        proof {
            let p = v@.take(i + 1);
            assert(p.drop_last() == v@.take(i as int));
            assert(p.last() == ch);
            if i > 0 {
                assert(v@.take(i as int).last() == v@[i - 1]);
            }
            lemma_word_count_mono(v@, i + 1);
        }
        if is_cjk_char(ch) {
            count += 1;
            in_word = false;
        } else if crate::text::char_is_ws(ch) {
            in_word = false;
        } else {
            if !in_word {
                count += 1;
                in_word = true;
            }
        }
        i += 1;
    }
    assert(v@.take(v.len() as int) == v@);
    count
}

/// Estimated reading time in minutes: 200 words a minute, at least one.
pub fn reading_time(word_count: u32) -> (r: u32)
    ensures
        r == if word_count / 200 >= 1 {
            word_count / 200
        } else {
            1
        },
{
    let m = word_count / 200;
    if m >= 1 {
        m
    } else {
        1
    }
}

/// Every text takes at least a minute to read, and reading time grows with
/// the word count.
pub proof fn law_reading_time_monotone(a: u32, b: u32)
    requires
        a <= b,
    ensures
        (if a / 200 >= 1 {
            a / 200
        } else {
            1
        }) <= (if b / 200 >= 1 {
            b / 200
        } else {
            1
        }),
        (if a / 200 >= 1 {
            a / 200
        } else {
            1
        }) >= 1,
{
    assert(a / 200 <= b / 200) by (nonlinear_arith)
        requires
            a <= b,
    ;
}

/// The scanner state (in a heading, its level, its text so far, headings
/// found) after the events of `ev` from `i` on.
spec fn toc_after(
    ev: Seq<MdEventSpec>,
    i: int,
    in_heading: bool,
    level: u8,
    text: Seq<char>,
    acc: Seq<(u8, Seq<char>)>,
) -> (bool, u8, Seq<char>, Seq<(u8, Seq<char>)>)
    decreases ev.len() - i,
{
    if i < 0 || i >= ev.len() {
        (in_heading, level, text, acc)
    } else {
        match ev[i] {
            MdEventSpec::HeadingStart(l) => toc_after(ev, i + 1, true, l, Seq::empty(), acc),
            MdEventSpec::HeadingEnd => toc_after(
                ev,
                i + 1,
                false,
                level,
                text,
                if level >= 2 && level <= 4 {
                    acc.push((level, text))
                } else {
                    acc
                },
            ),
            MdEventSpec::Text(t) => toc_after(
                ev,
                i + 1,
                in_heading,
                level,
                if in_heading {
                    text + t
                } else {
                    text
                },
                acc,
            ),
            MdEventSpec::Code(t) => toc_after(
                ev,
                i + 1,
                in_heading,
                level,
                if in_heading {
                    text + t
                } else {
                    text
                },
                acc,
            ),
            MdEventSpec::Other => toc_after(ev, i + 1, in_heading, level, text, acc),
        }
    }
}

proof fn lemma_toc_shift(
    p: Seq<MdEventSpec>,
    x: Seq<MdEventSpec>,
    j: int,
    in_heading: bool,
    level: u8,
    text: Seq<char>,
    acc: Seq<(u8, Seq<char>)>,
)
    requires
        0 <= j,
    ensures
        toc_headings(p + x, p.len() + j, in_heading, level, text, acc) == toc_headings(
            x,
            j,
            in_heading,
            level,
            text,
            acc,
        ),
    decreases x.len() - j,
{
    if j < x.len() {
        assert((p + x)[p.len() + j] == x[j]);
        match x[j] {
            MdEventSpec::HeadingStart(l) => lemma_toc_shift(p, x, j + 1, true, l, Seq::empty(), acc),
            MdEventSpec::HeadingEnd => lemma_toc_shift(
                p,
                x,
                j + 1,
                false,
                level,
                text,
                if level >= 2 && level <= 4 {
                    acc.push((level, text))
                } else {
                    acc
                },
            ),
            MdEventSpec::Text(t) => lemma_toc_shift(
                p,
                x,
                j + 1,
                in_heading,
                level,
                if in_heading {
                    text + t
                } else {
                    text
                },
                acc,
            ),
            MdEventSpec::Code(t) => lemma_toc_shift(
                p,
                x,
                j + 1,
                in_heading,
                level,
                if in_heading {
                    text + t
                } else {
                    text
                },
                acc,
            ),
            MdEventSpec::Other => lemma_toc_shift(p, x, j + 1, in_heading, level, text, acc),
        }
    }
}

proof fn lemma_toc_split(
    ev: Seq<MdEventSpec>,
    x: Seq<MdEventSpec>,
    i: int,
    in_heading: bool,
    level: u8,
    text: Seq<char>,
    acc: Seq<(u8, Seq<char>)>,
)
    requires
        0 <= i <= ev.len(),
    ensures
        ({
            let st = toc_after(ev, i, in_heading, level, text, acc);
            &&& toc_headings(ev + x, i, in_heading, level, text, acc) == toc_headings(
                x,
                0,
                st.0,
                st.1,
                st.2,
                st.3,
            )
            &&& toc_headings(ev, i, in_heading, level, text, acc) == st.3
        }),
    decreases ev.len() - i,
{
    if i == ev.len() {
        lemma_toc_shift(ev, x, 0, in_heading, level, text, acc);
    } else {
        assert((ev + x)[i] == ev[i]);
        match ev[i] {
            MdEventSpec::HeadingStart(l) => lemma_toc_split(ev, x, i + 1, true, l, Seq::empty(), acc),
            MdEventSpec::HeadingEnd => lemma_toc_split(
                ev,
                x,
                i + 1,
                false,
                level,
                text,
                if level >= 2 && level <= 4 {
                    acc.push((level, text))
                } else {
                    acc
                },
            ),
            MdEventSpec::Text(t) => lemma_toc_split(
                ev,
                x,
                i + 1,
                in_heading,
                level,
                if in_heading {
                    text + t
                } else {
                    text
                },
                acc,
            ),
            MdEventSpec::Code(t) => lemma_toc_split(
                ev,
                x,
                i + 1,
                in_heading,
                level,
                if in_heading {
                    text + t
                } else {
                    text
                },
                acc,
            ),
            MdEventSpec::Other => lemma_toc_split(ev, x, i + 1, in_heading, level, text, acc),
        }
    }
}

/// Headings of levels 2, 3 and 4 make the table of contents, in order, and
/// no other heading does: after any events, a heading of level `l` with text
/// `t` adds `(l, t)` to the headings found exactly when `2 <= l <= 4`.
pub proof fn law_toc_headings_levels(ev: Seq<MdEventSpec>, l: u8, t: Seq<char>)
    ensures
        toc_headings(
            ev + seq![MdEventSpec::HeadingStart(l), MdEventSpec::Text(t), MdEventSpec::HeadingEnd],
            0,
            false,
            0,
            Seq::empty(),
            Seq::empty(),
        ) == toc_headings(ev, 0, false, 0, Seq::empty(), Seq::empty()) + if 2 <= l <= 4 {
            seq![(l, t)]
        } else {
            Seq::empty()
        },
{
    let x = seq![MdEventSpec::HeadingStart(l), MdEventSpec::Text(t), MdEventSpec::HeadingEnd];
    lemma_toc_split(ev, x, 0, false, 0, Seq::empty(), Seq::empty());
    let st = toc_after(ev, 0, false, 0, Seq::empty(), Seq::empty());
    let a = st.3;
    assert(Seq::<char>::empty() + t =~= t);
    assert(toc_headings(x, 3, false, l, t, if 2 <= l <= 4 { a.push((l, t)) } else { a }) == if 2 <= l <= 4 {
        a.push((l, t))
    } else {
        a
    });
    assert(toc_headings(x, 2, true, l, t, a) == toc_headings(x, 3, false, l, t, if 2 <= l <= 4 {
        a.push((l, t))
    } else {
        a
    }));
    assert(toc_headings(x, 1, true, l, Seq::empty(), a) == toc_headings(x, 2, true, l, t, a));
    assert(toc_headings(x, 0, st.0, st.1, st.2, a) == toc_headings(x, 1, true, l, Seq::empty(), a));
    if 2 <= l <= 4 {
        assert(a.push((l, t)) =~= a + seq![(l, t)]);
    } else {
        assert(a =~= a + Seq::<(u8, Seq<char>)>::empty());
    }
}

} // verus!
