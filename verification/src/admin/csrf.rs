//! CSRF tokens: their encoding, where requests carry them, and the checks
//! that let a request through.
use crate::digest::{hex_of, hex_encode as hex_encode_bytes};
use crate::text::{
    chars_of, split_on, starts_with, string_of_range, string_push, index_of_exec, starts_with_at,
};
use crate::admin::auth::{cookie_value, cookie_value_scan};
use argon2::password_hash::rand_core::{OsRng, RngCore};
use vstd::prelude::*;
use vstd::utf8::{decode_utf8, encode_utf8, valid_utf8};

verus! {

/// Lowercase hexadecimal of `bytes`, two digits per byte.
pub fn hex_encode(bytes: &[u8]) -> (r: String)
    ensures
        r@ == hex_of(bytes@),
{
    hex_encode_bytes(bytes)
}

/// The value of an ASCII hexadecimal digit.
pub open spec fn hex_value(b: u8) -> Option<nat> {
    if 48 <= b <= 57 {
        Some((b - 48) as nat)
    } else if 97 <= b <= 102 {
        Some((b - 87) as nat)
    } else if 65 <= b <= 70 {
        Some((b - 55) as nat)
    } else {
        None
    }
}

/// URL-decoding of bytes: `%XY` with two hexadecimal digits becomes the
/// character with that code (below 256), a malformed `%` escape is dropped
/// with the (at most two) bytes after it, `+` becomes a space, and any other
/// byte becomes the character with its code.
pub open spec fn url_decode_bytes(b: Seq<u8>) -> Seq<char>
    decreases b.len(),
{
    if b.len() == 0 {
        Seq::empty()
    } else if b[0] == 37 {
        let hi = if b.len() > 1 {
            hex_value(b[1])
        } else {
            None
        };
        let lo = if b.len() > 2 {
            hex_value(b[2])
        } else {
            None
        };
        let used: int = if b.len() >= 3 {
            3
        } else {
            b.len() as int
        };
        let rest = url_decode_bytes(b.skip(used));
        match (hi, lo) {
            (Some(h), Some(l)) => seq![(h * 16 + l) as char] + rest,
            _ => rest,
        }
    } else if b[0] == 43 {
        seq![' '] + url_decode_bytes(b.skip(1))
    } else {
        seq![b[0] as char] + url_decode_bytes(b.skip(1))
    }
}

fn hex_value_exec(b: u8) -> (r: Option<u8>)
    ensures
        match hex_value(b) {
            Some(v) => r == Some(v as u8) && v < 16,
            None => r is None,
        },
{
    if 48 <= b && b <= 57 {
        Some(b - 48)
    } else if 97 <= b && b <= 102 {
        Some(b - 87)
    } else if 65 <= b && b <= 70 {
        Some(b - 55)
    } else {
        None
    }
}

/// Decodes `%XY` escapes and `+` in a URL-encoded value, byte by byte.
pub fn url_decode(s: &str) -> (r: String)
    ensures
        r@ == url_decode_bytes(encode_utf8(s@)),
{
    let b = s.as_bytes();
    let ghost bs = b@;
    let mut out = String::new();
    let mut i: usize = 0;
    assert(bs.skip(0) == bs);
    while i < b.len()
        invariant
            i <= b.len(),
            bs == b@,
            bs == encode_utf8(s@),
            url_decode_bytes(bs) == out@ + url_decode_bytes(bs.skip(i as int)),
        decreases b.len() - i,
    {
        let c = b[i];
        let ghost rest = bs.skip(i as int);
        assert(rest[0] == c);
        if c == 37 {
            let hi = if b.len() - i > 1 {
                hex_value_exec(b[i + 1])
            } else {
                None
            };
            let lo = if b.len() - i > 2 {
                hex_value_exec(b[i + 2])
            } else {
                None
            };
            let used: usize = if b.len() - i >= 3 {
                3
            } else {
                b.len() - i
            };
            proof {
                if rest.len() > 1 {
                    assert(rest[1] == bs[i + 1]);
                }
                if rest.len() > 2 {
                    assert(rest[2] == bs[i + 2]);
                }
                assert(rest.skip(used as int) == bs.skip(i + used));
            }
            match (hi, lo) {
                (Some(h), Some(l)) => {
                    let ch = (h * 16 + l) as char;
                    string_push(&mut out, ch);
                },
                _ => {},
            }
            i = i + used;
        } else {
            if c == 43 {
                string_push(&mut out, ' ');
            } else {
                string_push(&mut out, c as char);
            }
            assert(rest.skip(1) == bs.skip(i + 1));
            i += 1;
        }
    }
    assert(bs.skip(b.len() as int) == Seq::<u8>::empty());
    out
}

/// Whether `a` and `b` are the same string, compared in time that depends
/// only on their length.
pub fn constant_time_eq(a: &str, b: &str) -> (r: bool)
    ensures
        r == (a@ == b@),
{
    let x = a.as_bytes();
    let y = b.as_bytes();
    proof {
        vstd::utf8::encode_utf8_decode_utf8(a@);
        vstd::utf8::encode_utf8_decode_utf8(b@);
    }
    if x.len() != y.len() {
        return false;
    }
    let mut acc: u8 = 0;
    let mut i: usize = 0;
    assert(x@.take(0) =~= y@.take(0));
    while i < x.len()
        invariant
            i <= x.len(),
            x.len() == y.len(),
            (acc == 0) == (x@.take(i as int) == y@.take(i as int)),
        decreases x.len() - i,
    {
        let xi = x[i];
        let yi = y[i];
        let next = acc | (xi ^ yi);
        assert((next == 0) == (acc == 0 && xi == yi)) by (bit_vector)
            requires
                next == acc | (xi ^ yi),
        ;
        proof {
            assert(x@.take(i + 1) == x@.take(i as int).push(xi));
            assert(y@.take(i + 1) == y@.take(i as int).push(yi));
            if x@.take(i + 1) == y@.take(i + 1) {
                assert(x@.take(i as int) == x@.take(i + 1).drop_last());
                assert(y@.take(i as int) == y@.take(i + 1).drop_last());
                assert(xi == x@.take(i + 1).last());
            }
        }
        acc = next;
        i += 1;
    }
    assert(x@.take(x.len() as int) == x@);
    assert(y@.take(y.len() as int) == y@);
    acc == 0
}

/// The first non-empty `_csrf_token=` value among `parts`.
pub open spec fn query_token_scan(parts: Seq<Seq<char>>) -> Option<Seq<char>>
    decreases parts.len(),
{
    if parts.len() == 0 {
        None
    } else if starts_with(parts[0], "_csrf_token="@) && parts[0].len() > 12 {
        Some(parts[0].skip(12))
    } else {
        query_token_scan(parts.skip(1))
    }
}

/// The first `_csrf_token=` value among `parts` that URL-decodes to a
/// non-empty string, decoded.
pub open spec fn form_token_scan(parts: Seq<Seq<char>>) -> Option<Seq<char>>
    decreases parts.len(),
{
    if parts.len() == 0 {
        None
    } else if starts_with(parts[0], "_csrf_token="@) && parts[0].len() > 12 && url_decode_bytes(
        encode_utf8(parts[0].skip(12)),
    ).len() > 0 {
        Some(url_decode_bytes(encode_utf8(parts[0].skip(12))))
    } else {
        form_token_scan(parts.skip(1))
    }
}

/// The CSRF token carried by a `Cookie` header (the `csrf_token` cookie).
pub fn extract_csrf_cookie(header: &str) -> (r: Option<String>)
    ensures
        r matches Some(t) ==> cookie_value_scan(split_on(header@, ';'), "csrf_token"@) == Some(t@),
        r is None ==> cookie_value_scan(split_on(header@, ';'), "csrf_token"@) is None,
{
    cookie_value(header, "csrf_token")
}

/// The CSRF token carried by a query string (`_csrf_token=...`).
pub fn extract_csrf_from_query(query: &str) -> (r: Option<String>)
    ensures
        r matches Some(t) ==> query_token_scan(split_on(query@, '&')) == Some(t@),
        r is None ==> query_token_scan(split_on(query@, '&')) is None,
{
    let v = chars_of(query);
    let key = chars_of("_csrf_token=");
    proof {
        reveal_strlit("_csrf_token=");
    }
    let mut start: usize = 0;
    assert(v@.skip(0) == v@);
    loop
        invariant
            start <= v.len(),
            v@ == query@,
            key@ == "_csrf_token="@,
            query_token_scan(split_on(query@, '&')) == query_token_scan(
                split_on(v@.skip(start as int), '&'),
            ),
        decreases v.len() - start,
    {
        let k = index_of_exec(&v, '&', start);
        proof {
            crate::text::lemma_split_step(v@, '&', start as int);
        }
        let ghost parts = split_on(v@.skip(start as int), '&');
        let ghost p = v@.subrange(start as int, k as int);
        assert(parts[0] == p);
        assert(parts.skip(1) == if k < v.len() {
            split_on(v@.skip(k + 1), '&')
        } else {
            Seq::<Seq<char>>::empty()
        });
        if starts_with_at(&v, start, k, &key) && k - start > 12 {
            assert(p.skip(12) == v@.subrange(start + 12, k as int));
            return Some(string_of_range(&v, start + 12, k));
        }
        if k >= v.len() {
            assert(query_token_scan(parts.skip(1)) is None);
            return None;
        }
        start = k + 1;
    }
}

/// The CSRF token carried by a request header, if it is not empty.
pub fn extract_csrf_from_header(value: Option<&str>) -> (r: Option<String>)
    ensures
        r matches Some(t) ==> value matches Some(v) && v@ == t@ && t@.len() > 0,
        r is None ==> (value is None || value->0@.len() == 0),
{
    match value {
        Some(v) => {
            let cv = chars_of(v);
            if cv.len() == 0 {
                None
            } else {
                Some(v.to_owned())
            }
        },
        None => None,
    }
}

/// The text that `bytes` encode in UTF-8, if they are valid UTF-8
/// (`std::str::from_utf8`).
#[verifier::external_body]
fn utf8_text(bytes: &[u8]) -> (r: Option<String>)
    ensures
        r matches Some(s) ==> valid_utf8(bytes@) && s@ == decode_utf8(bytes@),
        r is None ==> !valid_utf8(bytes@),
{
    std::str::from_utf8(bytes).ok().map(|s| s.to_owned())
}

/// The CSRF token of a URL-encoded form body: the first `_csrf_token` field
/// that decodes to a non-empty value.  A body that is not UTF-8 has none.
pub fn extract_csrf_from_form_body(body: &[u8]) -> (r: Option<String>)
    ensures
        !valid_utf8(body@) ==> r is None,
        valid_utf8(body@) ==> (r matches Some(t) ==> form_token_scan(
            split_on(decode_utf8(body@), '&'),
        ) == Some(t@)),
        valid_utf8(body@) ==> (r is None ==> form_token_scan(
            split_on(decode_utf8(body@), '&'),
        ) is None),
{
    let text = match utf8_text(body) {
        Some(t) => t,
        None => return None,
    };
    let v = chars_of(text.as_str());
    let key = chars_of("_csrf_token=");
    proof {
        reveal_strlit("_csrf_token=");
    }
    let mut start: usize = 0;
    assert(v@.skip(0) == v@);
    loop
        invariant
            start <= v.len(),
            v@ == decode_utf8(body@),
            valid_utf8(body@),
            key@ == "_csrf_token="@,
            form_token_scan(split_on(decode_utf8(body@), '&')) == form_token_scan(
                split_on(v@.skip(start as int), '&'),
            ),
        decreases v.len() - start,
    {
        let k = index_of_exec(&v, '&', start);
        proof {
            crate::text::lemma_split_step(v@, '&', start as int);
        }
        let ghost parts = split_on(v@.skip(start as int), '&');
        let ghost p = v@.subrange(start as int, k as int);
        assert(parts[0] == p);
        assert(parts.skip(1) == if k < v.len() {
            split_on(v@.skip(k + 1), '&')
        } else {
            Seq::<Seq<char>>::empty()
        });
        if starts_with_at(&v, start, k, &key) && k - start > 12 {
            let value = string_of_range(&v, start + 12, k);
            assert(p.skip(12) == v@.subrange(start + 12, k as int));
            let decoded = url_decode(value.as_str());
            let dv = chars_of(decoded.as_str());
            if dv.len() > 0 {
                return Some(decoded);
            }
        }
        if k >= v.len() {
            assert(form_token_scan(parts.skip(1)) is None);
            return None;
        }
        start = k + 1;
    }
}

/// Whether a request method leaves state alone (GET, HEAD, OPTIONS).
pub fn is_safe_method(method: &str) -> (r: bool)
    ensures
        r == (method@ == "GET"@ || method@ == "HEAD"@ || method@ == "OPTIONS"@),
{
    crate::builder::keyed::str_eq(method, "GET") || crate::builder::keyed::str_eq(method, "HEAD")
        || crate::builder::keyed::str_eq(method, "OPTIONS")
}

/// What the CSRF check does with a request.
#[derive(Debug)]
pub enum CsrfOutcome {
    /// Let it through; afterwards set a fresh token cookie if `renew`.
    Pass { renew: bool },
    /// Refuse it with this HTTP status and message.
    Reject { status: u16, message: String },
    /// Read the URL-encoded body and check the token it carries.
    NeedFormBody,
}

/// The message for a token that does not match.
pub open spec fn csrf_mismatch_message() -> Seq<char> {
    "CSRF token 验证失败"@
}

/// The CSRF decision for a request, from its method, the token of its
/// cookie, the tokens of its header and query, and its content type.
pub open spec fn csrf_decision(
    safe: bool,
    cookie: Option<Seq<char>>,
    header: Option<Seq<char>>,
    query: Option<Seq<char>>,
    content_type: Seq<char>,
) -> (int, Seq<char>, bool, bool)
{
    // (status, message, pass, renew); status 0 with pass false means: read the body
    if safe {
        (200, Seq::empty(), true, cookie is None)
    } else if cookie is None {
        (403, "CSRF token 缺失"@, false, false)
    } else if header is Some {
        if header == cookie {
            (200, Seq::empty(), true, true)
        } else {
            (403, csrf_mismatch_message(), false, false)
        }
    } else if query is Some {
        if query == cookie {
            (200, Seq::empty(), true, true)
        } else {
            (403, csrf_mismatch_message(), false, false)
        }
    } else if starts_with(content_type, "multipart/"@) {
        (403, "CSRF token 验证失败，multipart 请求请通过 X-CSRF-Token header 传递"@, false, false)
    } else if starts_with(content_type, "application/x-www-form-urlencoded"@) {
        (0, Seq::empty(), false, false)
    } else {
        (403, csrf_mismatch_message(), false, false)
    }
}

/// Whether an outcome is the decision `d`.
pub open spec fn outcome_is(o: CsrfOutcome, d: (int, Seq<char>, bool, bool)) -> bool {
    match o {
        CsrfOutcome::Pass { renew } => d.2 && renew == d.3,
        CsrfOutcome::Reject { status, message } => !d.2 && d.0 != 0 && status == d.0 && message@
            == d.1,
        CsrfOutcome::NeedFormBody => !d.2 && d.0 == 0,
    }
}

fn opt_eq(a: &Option<String>, b: &Option<String>) -> (r: bool)
    ensures
        r == (match (a, b) {
            (Some(x), Some(y)) => x@ == y@,
            (None, None) => true,
            _ => false,
        }),
{
    match (a, b) {
        (Some(x), Some(y)) => crate::builder::keyed::str_eq(x.as_str(), y.as_str()),
        (None, None) => true,
        _ => false,
    }
}

/// The views of an optional string.
pub open spec fn opt_view(a: Option<String>) -> Option<Seq<char>> {
    match a {
        Some(x) => Some(x@),
        None => None,
    }
}

/// The CSRF check of a request, before its body is read: safe methods pass
/// (a token cookie is set where there is none); other requests need a token
/// cookie and a matching token, from the header first, then the query, then
/// a URL-encoded body.
pub fn csrf_outcome(
    safe: bool,
    cookie: &Option<String>,
    header: &Option<String>,
    query: &Option<String>,
    content_type: &str,
) -> (r: CsrfOutcome)
    ensures
        outcome_is(
            r,
            csrf_decision(safe, opt_view(*cookie), opt_view(*header), opt_view(*query), content_type@),
        ),
{
    let ct = chars_of(content_type);
    let mp = chars_of("multipart/");
    let fu = chars_of("application/x-www-form-urlencoded");
    assert(ct@.subrange(0, ct@.len() as int) == ct@);
    if safe {
        CsrfOutcome::Pass { renew: cookie.is_none() }
    } else if cookie.is_none() {
        CsrfOutcome::Reject { status: 403, message: "CSRF token 缺失".to_owned() }
    } else if header.is_some() {
        if opt_eq(header, cookie) {
            CsrfOutcome::Pass { renew: true }
        } else {
            CsrfOutcome::Reject { status: 403, message: "CSRF token 验证失败".to_owned() }
        }
    } else if query.is_some() {
        if opt_eq(query, cookie) {
            CsrfOutcome::Pass { renew: true }
        } else {
            CsrfOutcome::Reject { status: 403, message: "CSRF token 验证失败".to_owned() }
        }
    } else if starts_with_at(&ct, 0, ct.len(), &mp) {
        CsrfOutcome::Reject {
            status: 403,
            message: "CSRF token 验证失败，multipart 请求请通过 X-CSRF-Token header 传递".to_owned(),
        }
    } else if starts_with_at(&ct, 0, ct.len(), &fu) {
        CsrfOutcome::NeedFormBody
    } else {
        CsrfOutcome::Reject { status: 403, message: "CSRF token 验证失败".to_owned() }
    }
}

/// The CSRF check of a URL-encoded body against the cookie's token
/// `expected`: it passes (with a fresh token afterwards) when the body's
/// token matches.
pub fn csrf_form_outcome(expected: &str, body: &[u8]) -> (r: CsrfOutcome)
    ensures
        match r {
            CsrfOutcome::Pass { renew } => renew && valid_utf8(body@) && form_token_scan(
                split_on(decode_utf8(body@), '&'),
            ) == Some(expected@),
            CsrfOutcome::Reject { status, message } => status == 403 && message@
                == csrf_mismatch_message() && !(valid_utf8(body@) && form_token_scan(
                split_on(decode_utf8(body@), '&'),
            ) == Some(expected@)),
            CsrfOutcome::NeedFormBody => false,
        },
{
    match extract_csrf_from_form_body(body) {
        Some(t) => {
            if constant_time_eq(t.as_str(), expected) {
                CsrfOutcome::Pass { renew: true }
            } else {
                CsrfOutcome::Reject { status: 403, message: "CSRF token 验证失败".to_owned() }
            }
        },
        None => CsrfOutcome::Reject { status: 403, message: "CSRF token 验证失败".to_owned() },
    }
}

/// A request that changes state passes the first CSRF check only when it
/// has a token cookie and its header or query token equals it; safe
/// requests always pass.
pub proof fn law_csrf_pass_needs_matching_token(
    safe: bool,
    cookie: Option<Seq<char>>,
    header: Option<Seq<char>>,
    query: Option<Seq<char>>,
    content_type: Seq<char>,
)
    ensures
        safe ==> csrf_decision(safe, cookie, header, query, content_type).2,
        !safe && csrf_decision(safe, cookie, header, query, content_type).2 ==> cookie is Some && (
        header == cookie || (header is None && query == cookie)),
{
}

/// 32 bytes from the operating system's random source
/// (`OsRng::fill_bytes` from `rand_core`, as re-exported by `argon2`).
/// They are random, so only their number is claimed.
#[verifier::external_body]
fn random_token_bytes() -> (r: Vec<u8>)
    ensures
        r@.len() == 32,
{
    let mut bytes = [0u8; 32];
    OsRng.fill_bytes(&mut bytes);
    bytes.to_vec()
}

/// A fresh CSRF token: 32 random bytes in lowercase hexadecimal.
pub fn generate_csrf_token() -> (r: String)
    ensures
        r@.len() == 64,
        exists|b: Seq<u8>| b.len() == 32 && r@ == hex_of(b),
{
    let bytes = random_token_bytes();
    proof {
        crate::digest::lemma_hex_len(bytes@);
    }
    hex_encode(bytes.as_slice())
}

} // verus!
