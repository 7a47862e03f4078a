//! Slugs derived from content file names, the dates of front matter, and
//! the split of a post into front matter and body.
use crate::text::{
    chars_of, ends_with, ends_with_at, is_ascii_digit, opt_view, push_all, string_of_range, trim,
    trimmed_string,
};
use vstd::prelude::*;

verus! {

/// `s` with every trailing copy of `suf` removed, as `str::trim_end_matches`
/// does for a non-empty pattern.
pub open spec fn strip_suffix_all(s: Seq<char>, suf: Seq<char>) -> Seq<char>
    decreases s.len(),
{
    if suf.len() > 0 && ends_with(s, suf) {
        strip_suffix_all(s.take(s.len() - suf.len()), suf)
    } else {
        s
    }
}

/// Whether `n` starts with a `YYYY-MM-DD-` date prefix of ASCII digits.
pub open spec fn has_date_prefix(n: Seq<char>) -> bool {
    &&& n.len() >= 11
    &&& forall|i: int| 0 <= i < 4 ==> is_ascii_digit(#[trigger] n[i])
    &&& n[4] == '-'
    &&& forall|i: int| 5 <= i < 7 ==> is_ascii_digit(#[trigger] n[i])
    &&& n[7] == '-'
    &&& forall|i: int| 8 <= i < 10 ==> is_ascii_digit(#[trigger] n[i])
    &&& n[10] == '-'
}

/// The slug of a content file: the name without its `.md` / `.markdown`
/// endings and without a leading `YYYY-MM-DD-` date when something follows it.
pub open spec fn slug_spec(filename: Seq<char>) -> Seq<char> {
    let name = strip_suffix_all(strip_suffix_all(filename, ".md"@), ".markdown"@);
    if name.len() > 11 && has_date_prefix(name) {
        name.skip(11)
    } else {
        name
    }
}

/// The length of `v[..end]` once every trailing copy of `suf` is removed.
fn strip_suffix_end(v: &Vec<char>, end: usize, suf: &Vec<char>) -> (r: usize)
    requires
        end <= v.len(),
        suf.len() > 0,
    ensures
        r <= end,
        v@.take(r as int) == strip_suffix_all(v@.take(end as int), suf@),
{
    let ghost target = strip_suffix_all(v@.take(end as int), suf@);
    let mut e = end;
    while ends_with_at(v, 0, e, suf)
        invariant
            e <= end <= v.len(),
            suf.len() > 0,
            strip_suffix_all(v@.take(e as int), suf@) == target,
        decreases e,
    {
        proof {
            assert(v@.subrange(0, e as int) == v@.take(e as int));
            assert(v@.take(e as int).take(e - suf.len()) == v@.take(e - suf.len()));
        }
        e = e - suf.len();
    }
    assert(v@.subrange(0, e as int) == v@.take(e as int));
    e
}

fn is_digit_at(v: &Vec<char>, i: usize) -> (r: bool)
    requires
        i < v.len(),
    ensures
        r == is_ascii_digit(v@[i as int]),
{
    v[i] >= '0' && v[i] <= '9'
}

/// Derives a slug from a file name: drops the `.md` and `.markdown` endings
/// and a leading `YYYY-MM-DD-` date prefix.
pub fn slug_from_filename(filename: &str) -> (r: String)
    ensures
        r@ == slug_spec(filename@),
{
    let v = chars_of(filename);
    let md = chars_of(".md");
    let markdown = chars_of(".markdown");
    proof {
        reveal_strlit(".md");
        reveal_strlit(".markdown");
        assert(v@.take(v@.len() as int) == v@);
    }
    let e1 = strip_suffix_end(&v, v.len(), &md);
    let e2 = strip_suffix_end(&v, e1, &markdown);
    proof {
        assert(v@.take(e1 as int).take(e2 as int) == v@.take(e2 as int));
    }
    let ghost name = v@.take(e2 as int);
    if e2 > 11 {
        let prefix = is_digit_at(&v, 0) && is_digit_at(&v, 1) && is_digit_at(&v, 2) && is_digit_at(
            &v,
            3,
        ) && v[4] == '-' && is_digit_at(&v, 5) && is_digit_at(&v, 6) && v[7] == '-' && is_digit_at(
            &v,
            8,
        ) && is_digit_at(&v, 9) && v[10] == '-';
        proof {
            assert(forall|i: int| 0 <= i < e2 ==> name[i] == v@[i]);
            if prefix {
                assert forall|i: int| 0 <= i < 4 implies is_ascii_digit(#[trigger] name[i]) by {
                    assert(i == 0 || i == 1 || i == 2 || i == 3);
                }
                assert forall|i: int| 5 <= i < 7 implies is_ascii_digit(#[trigger] name[i]) by {
                    assert(i == 5 || i == 6);
                }
                assert forall|i: int| 8 <= i < 10 implies is_ascii_digit(#[trigger] name[i]) by {
                    assert(i == 8 || i == 9);
                }
            } else {
                if has_date_prefix(name) {
                    assert(is_ascii_digit(name[0]) && is_ascii_digit(name[1]));
                    assert(is_ascii_digit(name[2]) && is_ascii_digit(name[3]));
                    assert(is_ascii_digit(name[5]) && is_ascii_digit(name[6]));
                    assert(is_ascii_digit(name[8]) && is_ascii_digit(name[9]));
                }
            }
        }
        if prefix {
            let r = string_of_range(&v, 11, e2);
            assert(name.skip(11) == v@.subrange(11, e2 as int));
            return r;
        }
    }
    let r = string_of_range(&v, 0, e2);
    assert(v@.subrange(0, e2 as int) == name);
    r
}

/// An instant in UTC: seconds since the Unix epoch and the nanoseconds
/// within the second (`DateTime::<Utc>::timestamp` and
/// `timestamp_subsec_nanos`).
pub type UtcInstant = (i64, u32);

/// The instant that `chrono::DateTime::parse_from_rfc3339` reads from `s`,
/// taken to UTC; `None` where it does not parse.
pub uninterp spec fn rfc3339_instant_of(s: Seq<char>) -> Option<UtcInstant>;

/// The instant, read as UTC, of the time that
/// `chrono::NaiveDateTime::parse_from_str(s, format)` reads; `None` where it
/// does not parse.
pub uninterp spec fn naive_datetime_instant_of(s: Seq<char>, format: Seq<char>) -> Option<UtcInstant>;

/// The instant of midnight UTC on the day that
/// `chrono::NaiveDate::parse_from_str(s, format)` reads; `None` where it
/// does not parse.
pub uninterp spec fn naive_date_instant_of(s: Seq<char>, format: Seq<char>) -> Option<UtcInstant>;

/// `chrono::DateTime::parse_from_rfc3339`, then `to_utc`, as an instant.
/// The parser's result is named, not written out.
#[verifier::external_body]
pub(crate) fn rfc3339_instant(s: &str) -> (r: Option<UtcInstant>)
    ensures
        r == rfc3339_instant_of(s@),
{
    match chrono::DateTime::parse_from_rfc3339(s) {
        Ok(dt) => Some((dt.to_utc().timestamp(), dt.to_utc().timestamp_subsec_nanos())),
        Err(_) => None,
    }
}

/// `chrono::NaiveDateTime::parse_from_str`, then
/// `DateTime::from_naive_utc_and_offset(.., Utc)`, as an instant.  The
/// parser's result is named, not written out.
#[verifier::external_body]
fn naive_datetime_instant(s: &str, format: &str) -> (r: Option<UtcInstant>)
    ensures
        r == naive_datetime_instant_of(s@, format@),
{
    match chrono::NaiveDateTime::parse_from_str(s, format) {
        Ok(t) => {
            let dt = chrono::DateTime::<chrono::Utc>::from_naive_utc_and_offset(t, chrono::Utc);
            Some((dt.timestamp(), dt.timestamp_subsec_nanos()))
        },
        Err(_) => None,
    }
}

/// `chrono::NaiveDate::parse_from_str`, then `and_hms_opt(0, 0, 0)` (which
/// `chrono` gives for every date) and `DateTime::from_naive_utc_and_offset`,
/// as an instant.  The parser's result is named, not written out.
#[verifier::external_body]
fn naive_date_instant(s: &str, format: &str) -> (r: Option<UtcInstant>)
    ensures
        r == naive_date_instant_of(s@, format@),
{
    match chrono::NaiveDate::parse_from_str(s, format) {
        Ok(d) => match d.and_hms_opt(0, 0, 0) {
            Some(t) => {
                let dt = chrono::DateTime::<chrono::Utc>::from_naive_utc_and_offset(t, chrono::Utc);
                Some((dt.timestamp(), dt.timestamp_subsec_nanos()))
            },
            None => None,
        },
        Err(_) => None,
    }
}

/// The instant a front matter date stands for, its text trimmed first: an
/// RFC 3339 time; `YYYY-MM-DDTHH:MM:SS` read as UTC; `YYYY-MM-DD` or
/// `YYYY/MM/DD` at midnight UTC.  The first form that parses wins; a text in
/// none of them is refused with a message that quotes it.
pub open spec fn parse_date_spec(date_str: Seq<char>) -> Result<UtcInstant, Seq<char>> {
    let s = trim(date_str);
    if let Some(t) = rfc3339_instant_of(s) {
        Ok(t)
    } else if let Some(t) = naive_datetime_instant_of(s, "%Y-%m-%dT%H:%M:%S"@) {
        Ok(t)
    } else if let Some(t) = naive_date_instant_of(s, "%Y-%m-%d"@) {
        Ok(t)
    } else if let Some(t) = naive_date_instant_of(s, "%Y/%m/%d"@) {
        Ok(t)
    } else {
        Err("无法解析日期："@ + s)
    }
}

/// Parses a front matter date (see `parse_date_spec`).
pub fn parse_date(date_str: &str) -> (r: Result<UtcInstant, String>)
    ensures
        match r {
            Ok(t) => parse_date_spec(date_str@) == Ok::<UtcInstant, Seq<char>>(t),
            Err(e) => parse_date_spec(date_str@) == Err::<UtcInstant, Seq<char>>(e@),
        },
{
    let v = chars_of(date_str);
    let s = trimmed_string(&v, 0, v.len());
    assert(v@.subrange(0, v@.len() as int) == v@);
    if let Some(t) = rfc3339_instant(s.as_str()) {
        return Ok(t);
    }
    if let Some(t) = naive_datetime_instant(s.as_str(), "%Y-%m-%dT%H:%M:%S") {
        return Ok(t);
    }
    if let Some(t) = naive_date_instant(s.as_str(), "%Y-%m-%d") {
        return Ok(t);
    }
    if let Some(t) = naive_date_instant(s.as_str(), "%Y/%m/%d") {
        return Ok(t);
    }
    let mut msg = "无法解析日期：".to_owned();
    push_all(&mut msg, &s);
    Err(msg)
}

/// The raw front matter and the body that
/// `gray_matter::Matter::<YAML>::new().parse::<Pod>(content)` gives (its
/// `matter` and `content` fields); `None` where it returns an error, as it
/// does when the front matter is not valid YAML.
pub uninterp spec fn gray_matter_parts_of(content: Seq<char>) -> Option<(Seq<char>, Seq<char>)>;

/// An optional pair of strings by their views.
pub open spec fn pair_view(o: Option<(String, String)>) -> Option<(Seq<char>, Seq<char>)> {
    match o {
        Some((a, b)) => Some((a@, b@)),
        None => None,
    }
}

/// `gray_matter::Matter::<YAML>::new().parse::<Pod>`, keeping the raw front
/// matter and the body.  How the crate splits the text is named, not
/// written out.
#[verifier::external_body]
fn gray_matter_parts(content: &str) -> (r: Option<(String, String)>)
    ensures
        pair_view(r) == gray_matter_parts_of(content@),
{
    let matter = gray_matter::Matter::<gray_matter::engine::YAML>::new();
    match matter.parse::<gray_matter::Pod>(content) {
        Ok(parsed) => Some((parsed.matter, parsed.content)),
        Err(_) => None,
    }
}

/// The front matter (where there is any) and the body of a post, given what
/// the front matter parser returned for it: a text without front matter, or
/// whose front matter does not parse, is body as a whole.
pub open spec fn front_matter_split(
    parsed: Option<(Seq<char>, Seq<char>)>,
    content: Seq<char>,
) -> (Option<Seq<char>>, Seq<char>) {
    match parsed {
        Some((m, body)) => (if m.len() > 0 {
            Some(m)
        } else {
            None
        }, body),
        None => (None, content),
    }
}

/// The front matter and body of `content` (see `front_matter_split`), from
/// what the parser returned for it.
pub fn front_matter_parts(parsed: Option<(String, String)>, content: &str) -> (r: (
    Option<String>,
    String,
))
    ensures
        (opt_view(r.0), r.1@) == front_matter_split(pair_view(parsed), content@),
{
    match parsed {
        Some((m, body)) => {
            if !m.as_str().is_empty() {
                (Some(m), body)
            } else {
                (None, body)
            }
        },
        None => (None, content.to_owned()),
    }
}

/// Splits a post's text into its raw front matter, where it has any, and its
/// body.
pub fn split_front_matter(content: &str) -> (r: (Option<String>, String))
    ensures
        (opt_view(r.0), r.1@) == front_matter_split(gray_matter_parts_of(content@), content@),
{
    let parsed = gray_matter_parts(content);
    front_matter_parts(parsed, content)
}

} // verus!
