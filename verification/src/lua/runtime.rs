//! Helpers that the scripting API hands to plugins: AWS Signature V4 signing
//! of S3 requests, HTML stripping and date normalisation.
use crate::builder::keyed::str_eq;
use crate::digest::{hex_encode, hex_of, hmac_sha256, hmac_sha256_of, sha256_hex, sha256_of};
use crate::text::{
    chars_of, join_seq, join_strings, lower_of, opt_view, pairs_view, push_all, str_lt, str_lt_exec, str_to_lowercase,
    string_push_str, trim, trimmed_string,
};
use vstd::prelude::*;
use vstd::utf8::encode_utf8;

verus! {

// ───────────────────────── S3 request signing ─────────────────────────

/// The header names that the signature sets itself.
pub open spec fn is_reserved_header(k: Seq<char>) -> bool {
    k == "host"@ || k == "x-amz-content-sha256"@ || k == "x-amz-date"@
}

/// The caller's extra headers as they are signed: names in lowercase, those
/// that fall on a reserved name left out.
pub open spec fn extra_signed(extra: Seq<(Seq<char>, Seq<char>)>) -> Seq<(Seq<char>, Seq<char>)>
    decreases extra.len(),
{
    if extra.len() == 0 {
        Seq::empty()
    } else {
        let rest = extra_signed(extra.drop_last());
        let k = lower_of(extra.last().0);
        if is_reserved_header(k) {
            rest
        } else {
            rest.push((k, extra.last().1))
        }
    }
}

/// The caller's extra headers as they are handed back: names as given, those
/// whose lowercase name is reserved left out.
pub open spec fn extra_kept(extra: Seq<(Seq<char>, Seq<char>)>) -> Seq<(Seq<char>, Seq<char>)>
    decreases extra.len(),
{
    if extra.len() == 0 {
        Seq::empty()
    } else {
        let rest = extra_kept(extra.drop_last());
        if is_reserved_header(lower_of(extra.last().0)) {
            rest
        } else {
            rest.push(extra.last())
        }
    }
}

/// `e` placed into `s` after every entry whose name is not greater than its
/// own (one step of a stable sort by name).
pub open spec fn insert_by_key(s: Seq<(Seq<char>, Seq<char>)>, e: (Seq<char>, Seq<char>)) -> Seq<
    (Seq<char>, Seq<char>),
>
    decreases s.len(),
{
    if s.len() == 0 {
        seq![e]
    } else if str_lt(e.0, s.last().0) {
        insert_by_key(s.drop_last(), e).push(s.last())
    } else {
        s.push(e)
    }
}

/// `s` stably sorted by name (`slice::sort_by` on the names, which keeps
/// entries of equal name in their order).
pub open spec fn sort_by_key(s: Seq<(Seq<char>, Seq<char>)>) -> Seq<(Seq<char>, Seq<char>)>
    decreases s.len(),
{
    if s.len() == 0 {
        s
    } else {
        insert_by_key(sort_by_key(s.drop_last()), s.last())
    }
}

/// The headers to sign, in the order they are gathered: `host`,
/// `x-amz-content-sha256`, `x-amz-date`, then the caller's.
pub open spec fn headers_to_sign(
    host: Seq<char>,
    payload_hash: Seq<char>,
    amz_date: Seq<char>,
    extra: Seq<(Seq<char>, Seq<char>)>,
) -> Seq<(Seq<char>, Seq<char>)> {
    seq![("host"@, host), ("x-amz-content-sha256"@, payload_hash), ("x-amz-date"@, amz_date)]
        + extra_signed(extra)
}

/// The names of a header list.
pub open spec fn header_names(s: Seq<(Seq<char>, Seq<char>)>) -> Seq<Seq<char>> {
    s.map_values(|p: (Seq<char>, Seq<char>)| p.0)
}

/// `name:value\n` for each header, the value trimmed.
pub open spec fn canonical_headers(s: Seq<(Seq<char>, Seq<char>)>) -> Seq<char>
    decreases s.len(),
{
    if s.len() == 0 {
        Seq::empty()
    } else {
        canonical_headers(s.drop_last()) + s.last().0 + ":"@ + trim(s.last().1) + "\n"@
    }
}

/// The canonical request of Signature V4 over the sorted headers.
pub open spec fn canonical_request(
    method: Seq<char>,
    path: Seq<char>,
    query: Seq<char>,
    sorted: Seq<(Seq<char>, Seq<char>)>,
    payload_hash: Seq<char>,
) -> Seq<char> {
    method + "\n"@ + path + "\n"@ + query + "\n"@ + canonical_headers(sorted) + "\n"@ + join_seq(
        header_names(sorted),
        ";"@,
    ) + "\n"@ + payload_hash
}

/// `date/region/s3/aws4_request`.
pub open spec fn credential_scope(date_stamp: Seq<char>, region: Seq<char>) -> Seq<char> {
    date_stamp + "/"@ + region + "/s3/aws4_request"@
}

/// The string to sign: algorithm, time, scope and the hex SHA-256 of the
/// canonical request, one per line.
pub open spec fn string_to_sign(amz_date: Seq<char>, scope: Seq<char>, canonical: Seq<char>) -> Seq<
    char,
> {
    "AWS4-HMAC-SHA256\n"@ + amz_date + "\n"@ + scope + "\n"@ + hex_of(sha256_of(encode_utf8(canonical)))
}

/// The signing key: HMAC-SHA256 chained over the date, the region, `s3` and
/// `aws4_request`, starting from `AWS4` followed by the secret key.
pub open spec fn signing_key(secret_key: Seq<char>, date_stamp: Seq<char>, region: Seq<char>) -> Seq<
    u8,
> {
    let k_date = hmac_sha256_of(encode_utf8("AWS4"@ + secret_key), encode_utf8(date_stamp));
    let k_region = hmac_sha256_of(k_date, encode_utf8(region));
    let k_service = hmac_sha256_of(k_region, encode_utf8("s3"@));
    hmac_sha256_of(k_service, encode_utf8("aws4_request"@))
}

/// The `Authorization` header's value.
pub open spec fn authorization(
    access_key: Seq<char>,
    scope: Seq<char>,
    signed_headers: Seq<char>,
    signature: Seq<u8>,
) -> Seq<char> {
    "AWS4-HMAC-SHA256 Credential="@ + access_key + "/"@ + scope + ", SignedHeaders="@
        + signed_headers + ", Signature="@ + hex_of(signature)
}

/// The headers that a signed S3 request carries: `Authorization`,
/// `x-amz-date`, `x-amz-content-sha256`, `host`, then the caller's extra
/// headers that were not reserved.
pub open spec fn s3_signed_headers(
    method: Seq<char>,
    host: Seq<char>,
    path: Seq<char>,
    query: Seq<char>,
    region: Seq<char>,
    access_key: Seq<char>,
    secret_key: Seq<char>,
    extra: Seq<(Seq<char>, Seq<char>)>,
    payload_hash: Seq<char>,
    date_stamp: Seq<char>,
    amz_date: Seq<char>,
) -> Seq<(Seq<char>, Seq<char>)> {
    let sorted = sort_by_key(headers_to_sign(host, payload_hash, amz_date, extra));
    let scope = credential_scope(date_stamp, region);
    let to_sign = string_to_sign(
        amz_date,
        scope,
        canonical_request(method, path, query, sorted, payload_hash),
    );
    let signature = hmac_sha256_of(signing_key(secret_key, date_stamp, region), encode_utf8(to_sign));
    seq![
        ("Authorization"@, authorization(access_key, scope, join_seq(header_names(sorted), ";"@), signature)),
        ("x-amz-date"@, amz_date),
        ("x-amz-content-sha256"@, payload_hash),
        ("host"@, host),
    ] + extra_kept(extra)
}

/// Whether `a` is the `%Y%m%dT%H%M%SZ` time of the same instant whose
/// `%Y%m%d` date is `d`: `d`, `T`, six digits and `Z`.
pub open spec fn stamps_agree(d: Seq<char>, a: Seq<char>) -> bool {
    &&& a.len() == d.len() + 8
    &&& a.take(d.len() as int) == d
    &&& a[d.len() as int] == 'T'
    &&& a.last() == 'Z'
}

proof fn lemma_insert_at(s: Seq<(Seq<char>, Seq<char>)>, e: (Seq<char>, Seq<char>), p: int)
    requires
        0 <= p <= s.len(),
        p == 0 || !str_lt(e.0, s[p - 1].0),
        forall|k: int| p <= k < s.len() ==> str_lt(e.0, #[trigger] s[k].0),
    ensures
        insert_by_key(s, e) == s.insert(p, e),
    decreases s.len(),
{
    if s.len() == 0 {
        assert(s.insert(p, e) =~= seq![e]);
    } else if p == s.len() {
        assert(s.insert(p, e) =~= s.push(e));
    } else {
        assert(str_lt(e.0, s[s.len() - 1].0));
        let d = s.drop_last();
        assert forall|k: int| p <= k < d.len() implies str_lt(e.0, #[trigger] d[k].0) by {
            assert(d[k] == s[k]);
        }
        if p > 0 {
            assert(d[p - 1] == s[p - 1]);
        }
        lemma_insert_at(d, e, p);
        assert(d.insert(p, e).push(s.last()) =~= s.insert(p, e));
    }
}

/// Places `e` into `v` as `insert_by_key` does.
fn insert_by_name(v: &mut Vec<(String, String)>, e: (String, String))
    ensures
        pairs_view(final(v)@) == insert_by_key(pairs_view(old(v)@), (e.0@, e.1@)),
{
    let ghost s = pairs_view(v@);
    let ek = chars_of(e.0.as_str());
    let mut j: usize = v.len();
    let mut done = false;
    while j > 0 && !done
        invariant
            j <= v.len(),
            s == pairs_view(v@),
            ek@ == e.0@,
            forall|k: int| j <= k < s.len() ==> str_lt(e.0@, #[trigger] s[k].0),
            done ==> j > 0 && !str_lt(e.0@, s[j - 1].0),
        decreases j + if done { 0int } else { 1int },
    {
        let kj = chars_of(v[j - 1].0.as_str());
        assert(s[j - 1] == (v@[j - 1].0@, v@[j - 1].1@));
        if str_lt_exec(&ek, &kj) {
            j -= 1;
        } else {
            done = true;
        }
    }
    proof {
        lemma_insert_at(s, (e.0@, e.1@), j as int);
    }
    let ghost ev = (e.0@, e.1@);
    v.insert(j, e);
    assert(pairs_view(v@) =~= s.insert(j as int, ev));
}

proof fn lemma_extra_step(extra: Seq<(Seq<char>, Seq<char>)>, i: int)
    requires
        0 <= i < extra.len(),
    ensures
        extra_signed(extra.take(i + 1)) == (if is_reserved_header(lower_of(extra[i].0)) {
            extra_signed(extra.take(i))
        } else {
            extra_signed(extra.take(i)).push((lower_of(extra[i].0), extra[i].1))
        }),
        extra_kept(extra.take(i + 1)) == (if is_reserved_header(lower_of(extra[i].0)) {
            extra_kept(extra.take(i))
        } else {
            extra_kept(extra.take(i)).push(extra[i])
        }),
{
    assert(extra.take(i + 1).drop_last() == extra.take(i));
    assert(extra.take(i + 1).last() == extra[i]);
}

/// Whether a lowercase header name is one the signature sets itself.
fn is_reserved_name(k: &str) -> (r: bool)
    ensures
        r == is_reserved_header(k@),
{
    str_eq(k, "host") || str_eq(k, "x-amz-content-sha256") || str_eq(k, "x-amz-date")
}

/// The sorted headers to sign, and the caller's headers that are kept.
fn gather_headers(
    host: &str,
    payload_hash: &str,
    amz_date: &str,
    extra: &Vec<(String, String)>,
) -> (r: (Vec<(String, String)>, Vec<(String, String)>))
    ensures
        pairs_view(r.0@) == sort_by_key(headers_to_sign(host@, payload_hash@, amz_date@, pairs_view(extra@))),
        pairs_view(r.1@) == extra_kept(pairs_view(extra@)),
{
    let ghost ev = pairs_view(extra@);
    let ghost fixed = seq![("host"@, host@), ("x-amz-content-sha256"@, payload_hash@), ("x-amz-date"@, amz_date@)];
    let mut sorted: Vec<(String, String)> = Vec::new();
    insert_by_name(&mut sorted, ("host".to_owned(), host.to_owned()));
    insert_by_name(&mut sorted, ("x-amz-content-sha256".to_owned(), payload_hash.to_owned()));
    insert_by_name(&mut sorted, ("x-amz-date".to_owned(), amz_date.to_owned()));
    proof {
        assert(pairs_view(Seq::<(String, String)>::empty()) =~= Seq::empty());
        assert(fixed.take(1).drop_last() =~= Seq::empty());
        assert(fixed.take(2).drop_last() =~= fixed.take(1));
        assert(fixed.take(3).drop_last() =~= fixed.take(2));
        assert(fixed.take(3) =~= fixed);
        assert(sort_by_key(fixed.take(1)) == insert_by_key(sort_by_key(Seq::empty()), fixed[0]));
        assert(sort_by_key(fixed.take(2)) == insert_by_key(sort_by_key(fixed.take(1)), fixed[1]));
        assert(sort_by_key(fixed.take(3)) == insert_by_key(sort_by_key(fixed.take(2)), fixed[2]));
        assert(fixed + extra_signed(ev.take(0)) =~= fixed);
    }
    let mut kept: Vec<(String, String)> = Vec::new();
    let mut i: usize = 0;
    while i < extra.len()
        invariant
            i <= extra.len(),
            ev == pairs_view(extra@),
            pairs_view(sorted@) == sort_by_key(fixed + extra_signed(ev.take(i as int))),
            pairs_view(kept@) == extra_kept(ev.take(i as int)),
        decreases extra.len() - i,
    {
        let k = &extra[i].0;
        let v = &extra[i].1;
        assert(ev[i as int] == (k@, v@));
        let lower_k = str_to_lowercase(k.as_str());
        proof {
            lemma_extra_step(ev, i as int);
        }
        if !is_reserved_name(lower_k.as_str()) {
            let ghost before = fixed + extra_signed(ev.take(i as int));
            let ghost entry = (lower_k@, v@);
            insert_by_name(&mut sorted, (lower_k, v.clone()));
            let ghost kept_before = kept@;
            kept.push((k.clone(), v.clone()));
            proof {
                let after = fixed + extra_signed(ev.take(i + 1));
                assert(after =~= before.push(entry));
                assert(after.drop_last() =~= before);
                assert(pairs_view(kept@) =~= pairs_view(kept_before).push(ev[i as int]));
            }
        }
        i += 1;
    }
    assert(ev.take(extra.len() as int) =~= ev);
    (sorted, kept)
}

/// The names of the sorted headers joined with `;`, and their canonical
/// `name:value\n` lines.
fn header_lines(sorted: &Vec<(String, String)>) -> (r: (String, String))
    ensures
        r.0@ == join_seq(header_names(pairs_view(sorted@)), ";"@),
        r.1@ == canonical_headers(pairs_view(sorted@)),
{
    let ghost s = pairs_view(sorted@);
    let mut names: Vec<String> = Vec::new();
    let mut lines = String::new();
    let mut i: usize = 0;
    while i < sorted.len()
        invariant
            i <= sorted.len(),
            s == pairs_view(sorted@),
            names.deep_view() == header_names(s.take(i as int)),
            lines@ == canonical_headers(s.take(i as int)),
        decreases sorted.len() - i,
    {
        let name = &sorted[i].0;
        let value = &sorted[i].1;
        assert(s[i as int] == (name@, value@));
        let ghost prev_names = names.deep_view();
        names.push(name.clone());
        let vc = chars_of(value.as_str());
        let t = trimmed_string(&vc, 0, vc.len());
        assert(vc@.subrange(0, vc@.len() as int) == vc@);
        push_all(&mut lines, name);
        string_push_str(&mut lines, ":");
        push_all(&mut lines, &t);
        string_push_str(&mut lines, "\n");
        proof {
            let next = s.take(i + 1);
            assert(next.drop_last() =~= s.take(i as int));
            assert(next.last() == s[i as int]);
            assert(names.deep_view() =~= prev_names.push(name@));
            assert(header_names(next) =~= header_names(s.take(i as int)).push(name@));
        }
        i += 1;
    }
    assert(s.take(sorted.len() as int) =~= s);
    (join_strings(&names, ";"), lines)
}

/// Signs an S3 request with AWS Signature V4 at the given time stamps
/// (`date_stamp` as `%Y%m%d`, `amz_date` as `%Y%m%dT%H%M%SZ`) and returns
/// the headers to attach: `Authorization`, `x-amz-date`,
/// `x-amz-content-sha256`, `host`, then the caller's headers whose lowercase
/// name is not one of the last three.
pub fn sign_s3_request(
    method: &str,
    host: &str,
    path: &str,
    query: &str,
    region: &str,
    access_key: &str,
    secret_key: &str,
    extra_headers: &Vec<(String, String)>,
    payload_hash: &str,
    date_stamp: &str,
    amz_date: &str,
) -> (r: Result<Vec<(String, String)>, String>)
    ensures
        r matches Ok(v) && pairs_view(v@) == s3_signed_headers(
            method@,
            host@,
            path@,
            query@,
            region@,
            access_key@,
            secret_key@,
            pairs_view(extra_headers@),
            payload_hash@,
            date_stamp@,
            amz_date@,
        ),
{
    let (sorted, kept) = gather_headers(host, payload_hash, amz_date, extra_headers);
    let (signed_headers, canonical_lines) = header_lines(&sorted);

    let mut canonical = method.to_owned();
    string_push_str(&mut canonical, "\n");
    string_push_str(&mut canonical, path);
    string_push_str(&mut canonical, "\n");
    string_push_str(&mut canonical, query);
    string_push_str(&mut canonical, "\n");
    push_all(&mut canonical, &canonical_lines);
    string_push_str(&mut canonical, "\n");
    push_all(&mut canonical, &signed_headers);
    string_push_str(&mut canonical, "\n");
    string_push_str(&mut canonical, payload_hash);

    let mut scope = date_stamp.to_owned();
    string_push_str(&mut scope, "/");
    string_push_str(&mut scope, region);
    string_push_str(&mut scope, "/s3/aws4_request");

    let mut to_sign = "AWS4-HMAC-SHA256\n".to_owned();
    string_push_str(&mut to_sign, amz_date);
    string_push_str(&mut to_sign, "\n");
    push_all(&mut to_sign, &scope);
    string_push_str(&mut to_sign, "\n");
    let digest = sha256_hex(canonical.as_str().as_bytes());
    push_all(&mut to_sign, &digest);

    let mut key_text = "AWS4".to_owned();
    string_push_str(&mut key_text, secret_key);
    let k_date = match hmac_sha256(key_text.as_str().as_bytes(), date_stamp.as_bytes()) {
        Ok(k) => k,
        Err(e) => return Err(hmac_failure(&e)),
    };
    let k_region = match hmac_sha256(k_date.as_slice(), region.as_bytes()) {
        Ok(k) => k,
        Err(e) => return Err(hmac_failure(&e)),
    };
    let k_service = match hmac_sha256(k_region.as_slice(), "s3".as_bytes()) {
        Ok(k) => k,
        Err(e) => return Err(hmac_failure(&e)),
    };
    let k_signing = match hmac_sha256(k_service.as_slice(), "aws4_request".as_bytes()) {
        Ok(k) => k,
        Err(e) => return Err(hmac_failure(&e)),
    };
    let signature = match hmac_sha256(k_signing.as_slice(), to_sign.as_str().as_bytes()) {
        Ok(k) => k,
        Err(e) => return Err(hmac_failure(&e)),
    };

    let mut auth = "AWS4-HMAC-SHA256 Credential=".to_owned();
    string_push_str(&mut auth, access_key);
    string_push_str(&mut auth, "/");
    push_all(&mut auth, &scope);
    string_push_str(&mut auth, ", SignedHeaders=");
    push_all(&mut auth, &signed_headers);
    string_push_str(&mut auth, ", Signature=");
    let sig_hex = hex_encode(signature.as_slice());
    push_all(&mut auth, &sig_hex);

    let mut result: Vec<(String, String)> = Vec::new();
    result.push(("Authorization".to_owned(), auth));
    result.push(("x-amz-date".to_owned(), amz_date.to_owned()));
    result.push(("x-amz-content-sha256".to_owned(), payload_hash.to_owned()));
    result.push(("host".to_owned(), host.to_owned()));
    let ghost fixed = pairs_view(result@);
    let mut i: usize = 0;
    while i < kept.len()
        invariant
            i <= kept.len(),
            pairs_view(result@) == fixed + pairs_view(kept@).take(i as int),
        decreases kept.len() - i,
    {
        let ghost before = result@;
        result.push((kept[i].0.clone(), kept[i].1.clone()));
        assert(pairs_view(kept@).take(i + 1) =~= pairs_view(kept@).take(i as int).push(
            pairs_view(kept@)[i as int],
        ));
        assert(pairs_view(result@) =~= pairs_view(before).push(pairs_view(kept@)[i as int]));
        i += 1;
    }
    assert(pairs_view(kept@).take(kept.len() as int) =~= pairs_view(kept@));
    let ghost expected = s3_signed_headers(
        method@,
        host@,
        path@,
        query@,
        region@,
        access_key@,
        secret_key@,
        pairs_view(extra_headers@),
        payload_hash@,
        date_stamp@,
        amz_date@,
    );
    assert(pairs_view(result@) =~= expected);
    Ok(result)
}

/// No name of `s` is greater than a later one.
pub open spec fn names_ordered(s: Seq<(Seq<char>, Seq<char>)>) -> bool {
    forall|i: int, j: int| 0 <= i < j < s.len() ==> !str_lt(#[trigger] s[j].0, #[trigger] s[i].0)
}

/// The entries of `s` named `name`, in order.
pub open spec fn named(s: Seq<(Seq<char>, Seq<char>)>, name: Seq<char>) -> Seq<(Seq<char>, Seq<char>)> {
    s.filter(|x: (Seq<char>, Seq<char>)| x.0 == name)
}

proof fn lemma_not_lt_trans(a: Seq<char>, b: Seq<char>, c: Seq<char>)
    requires
        !str_lt(b, a),
        !str_lt(c, b),
    ensures
        !str_lt(c, a),
{
    crate::text::lemma_str_lt_irreflexive(a);
    if str_lt(c, a) {
        if a != b {
            crate::text::lemma_str_lt_total(a, b);
        }
        if b != c {
            crate::text::lemma_str_lt_total(b, c);
        }
        if a != b && b != c {
            crate::text::lemma_str_lt_transitive(a, b, c);
            crate::text::lemma_str_lt_asymmetric(a, c);
        } else if a != b {
            crate::text::lemma_str_lt_asymmetric(a, b);
        } else if b != c {
            crate::text::lemma_str_lt_asymmetric(b, c);
        }
    }
}

proof fn lemma_insert_by_key(s: Seq<(Seq<char>, Seq<char>)>, e: (Seq<char>, Seq<char>), name: Seq<char>)
    ensures
        insert_by_key(s, e).to_multiset() == s.to_multiset().insert(e),
        forall|k: int| 0 <= k < insert_by_key(s, e).len() ==> #[trigger] insert_by_key(s, e)[k] == e
            || s.contains(insert_by_key(s, e)[k]),
        names_ordered(s) ==> names_ordered(insert_by_key(s, e)),
        named(insert_by_key(s, e), name) == (if e.0 == name {
            named(s, name).push(e)
        } else {
            named(s, name)
        }),
    decreases s.len(),
{
    broadcast use vstd::seq_lib::group_to_multiset_ensures;
    broadcast use Seq::lemma_filter_push;

    let pred = |x: (Seq<char>, Seq<char>)| x.0 == name;
    if s.len() == 0 {
        assert(seq![e] =~= s.push(e));
    } else if str_lt(e.0, s.last().0) {
        let d = s.drop_last();
        let last = s.last();
        assert(d.push(last) =~= s);
        lemma_insert_by_key(d, e, name);
        let t = insert_by_key(d, e);
        let r = t.push(last);
        assert forall|k: int| 0 <= k < r.len() implies #[trigger] r[k] == e || s.contains(r[k]) by {
            if k < t.len() {
                assert(r[k] == t[k]);
                if t[k] != e {
                    let i = choose|i: int| 0 <= i < d.len() && d[i] == t[k];
                    assert(s[i] == d[i]);
                }
            } else {
                assert(s[s.len() - 1] == last);
            }
        }
        if names_ordered(s) {
            assert forall|i: int, j: int| 0 <= i < j < d.len() implies !str_lt(
                #[trigger] d[j].0,
                #[trigger] d[i].0,
            ) by {
                assert(d[i] == s[i] && d[j] == s[j]);
            }
            assert forall|i: int, j: int| 0 <= i < j < r.len() implies !str_lt(
                #[trigger] r[j].0,
                #[trigger] r[i].0,
            ) by {
                if j < t.len() {
                    assert(r[i] == t[i] && r[j] == t[j]);
                } else {
                    assert(r[j] == last);
                    assert(r[i] == t[i]);
                    if t[i] == e {
                        crate::text::lemma_str_lt_asymmetric(e.0, last.0);
                    } else {
                        let m = choose|m: int| 0 <= m < d.len() && d[m] == t[i];
                        assert(s[m] == d[m]);
                        assert(s[s.len() - 1] == last);
                    }
                }
            }
        }
        if e.0 == name {
            crate::text::lemma_str_lt_irreflexive(name);
            assert(!pred(last));
        }
    } else {
        if names_ordered(s) {
            let r = s.push(e);
            assert forall|i: int, j: int| 0 <= i < j < r.len() implies !str_lt(
                #[trigger] r[j].0,
                #[trigger] r[i].0,
            ) by {
                assert(r[i] == s[i]);
                if j < s.len() {
                    assert(r[j] == s[j]);
                } else if i < s.len() - 1 {
                    assert(!str_lt(s[s.len() - 1].0, s[i].0));
                    lemma_not_lt_trans(s[i].0, s[s.len() - 1].0, e.0);
                }
            }
        }
        assert forall|k: int| 0 <= k < s.push(e).len() implies #[trigger] s.push(e)[k] == e
            || s.contains(s.push(e)[k]) by {
            if k < s.len() {
                assert(s.push(e)[k] == s[k]);
            }
        }
    }
}

/// Signing lists the headers in order of name: the sorted list holds the
/// same entries as the gathered one, no name comes after a greater one, and
/// entries that share a name keep the order in which they were gathered.
pub proof fn law_signed_headers_sorted(s: Seq<(Seq<char>, Seq<char>)>, name: Seq<char>)
    ensures
        sort_by_key(s).to_multiset() == s.to_multiset(),
        names_ordered(sort_by_key(s)),
        named(sort_by_key(s), name) == named(s, name),
    decreases s.len(),
{
    broadcast use vstd::seq_lib::group_to_multiset_ensures;
    broadcast use Seq::lemma_filter_push;

    if s.len() == 0 {
        reveal(Seq::filter);
    } else {
        let d = s.drop_last();
        law_signed_headers_sorted(d, name);
        lemma_insert_by_key(sort_by_key(d), s.last(), name);
        assert(d.push(s.last()) =~= s);
    }
}

/// The host, path and query of a URL as `url::Url::parse` (re-exported as
/// `reqwest::Url`) reads them, or the text of its parse error.
pub uninterp spec fn url_parts_of(url: Seq<char>) -> Result<
    (Option<Seq<char>>, Seq<char>, Option<Seq<char>>),
    Seq<char>,
>;

/// `reqwest::Url::parse`, then `host_str`, `path` and `query`; on failure the
/// parse error's `Display` text.  What the URL parser returns is named, not
/// written out.
#[verifier::external_body]
fn url_parts(url: &str) -> (r: Result<(Option<String>, String, Option<String>), String>)
    ensures
        match r {
            Ok(parts) => url_parts_of(url@) == Ok::<_, Seq<char>>(
                (opt_view(parts.0), parts.1@, opt_view(parts.2)),
            ),
            Err(e) => url_parts_of(url@) == Err::<(Option<Seq<char>>, Seq<char>, Option<Seq<char>>), _>(
                e@,
            ),
        },
{
    match reqwest::Url::parse(url) {
        Ok(u) => Ok((u.host_str().map(String::from), u.path().to_string(), u.query().map(String::from))),
        Err(e) => Err(e.to_string()),
    }
}

/// The current UTC time from `chrono::Utc::now`, formatted with `chrono`'s
/// `format` as `%Y%m%d` and as `%Y%m%dT%H%M%SZ`.  Both come from one reading
/// of the clock, so the second is the first followed by `T`, the
/// two-digit hour, minute and second, and `Z`; the clock itself is not
/// claimed.
#[verifier::external_body]
fn utc_now_stamps() -> (r: (String, String))
    ensures
        stamps_agree(r.0@, r.1@),
{
    let now = chrono::Utc::now();
    (now.format("%Y%m%d").to_string(), now.format("%Y%m%dT%H%M%SZ").to_string())
}

/// The text an optional string stands for, empty when absent.
pub open spec fn or_empty(o: Option<Seq<char>>) -> Seq<char> {
    match o {
        Some(q) => q,
        None => Seq::empty(),
    }
}

/// The error that `compute_s3_signature` gives for a URL read as `parts`:
/// `None` where the URL is accepted.
pub open spec fn s3_url_error(parts: Result<(Option<Seq<char>>, Seq<char>, Option<Seq<char>>), Seq<char>>) -> Option<Seq<char>> {
    match parts {
        Err(e) => Some("URL 解析失败: "@ + e),
        Ok((None, _, _)) => Some("URL 中缺少 host"@),
        Ok((Some(_), _, _)) => None,
    }
}

/// Signs an S3 request to `url` with AWS Signature V4 at the current time
/// and returns the headers to attach (see `sign_s3_request`).  It fails when
/// the URL does not parse or has no host; otherwise the result is the
/// signature at the time read from the clock, whatever it was.
pub fn compute_s3_signature(
    method: &str,
    url: &str,
    region: &str,
    access_key: &str,
    secret_key: &str,
    extra_headers: &Vec<(String, String)>,
    payload_hash: &str,
) -> (r: Result<Vec<(String, String)>, String>)
    ensures
        s3_url_error(url_parts_of(url@)) matches Some(msg) ==> r matches Err(e) && e@ == msg,
        s3_url_error(url_parts_of(url@)) is None ==> (r matches Ok(v) && exists|date: Seq<char>, time: Seq<char>|
            stamps_agree(date, time) && pairs_view(v@) == #[trigger] s3_signed_headers(
                method@,
                url_parts_of(url@)->Ok_0.0->Some_0,
                url_parts_of(url@)->Ok_0.1,
                or_empty(url_parts_of(url@)->Ok_0.2),
                region@,
                access_key@,
                secret_key@,
                pairs_view(extra_headers@),
                payload_hash@,
                date,
                time,
            )),
{
    let (host, path, query) = match url_parts(url) {
        Ok(parts) => parts,
        Err(e) => {
            let mut msg = "URL 解析失败: ".to_owned();
            push_all(&mut msg, &e);
            return Err(msg);
        },
    };
    let host = match host {
        Some(h) => h,
        None => return Err("URL 中缺少 host".to_owned()),
    };
    let query = match query {
        Some(q) => q,
        None => String::new(),
    };
    let (date_stamp, amz_date) = utc_now_stamps();
    let r = sign_s3_request(
        method,
        host.as_str(),
        path.as_str(),
        query.as_str(),
        region,
        access_key,
        secret_key,
        extra_headers,
        payload_hash,
        date_stamp.as_str(),
        amz_date.as_str(),
    );
    proof {
        assert(query@ == or_empty(url_parts_of(url@)->Ok_0.2));
        assert(host@ == url_parts_of(url@)->Ok_0.0->Some_0);
        assert(path@ == url_parts_of(url@)->Ok_0.1);
        let v = r->Ok_0;
        assert(stamps_agree(date_stamp@, amz_date@) && pairs_view(v@) == s3_signed_headers(
            method@,
            host@,
            path@,
            query@,
            region@,
            access_key@,
            secret_key@,
            pairs_view(extra_headers@),
            payload_hash@,
            date_stamp@,
            amz_date@,
        ));
    }
    r
}

// ───────────────────────── HTML stripping ─────────────────────────

/// The text of `s` outside `<...>` tags, and whether `s` ends inside a tag:
/// `<` opens a tag, `>` closes one, and neither is kept.
pub open spec fn strip_tags_state(s: Seq<char>) -> (Seq<char>, bool)
    decreases s.len(),
{
    if s.len() == 0 {
        (Seq::empty(), false)
    } else {
        let (out, inside) = strip_tags_state(s.drop_last());
        let c = s.last();
        if c == '<' {
            (out, true)
        } else if c == '>' {
            (out, false)
        } else if inside {
            (out, inside)
        } else {
            (out.push(c), inside)
        }
    }
}

/// The text of `s` with its tags removed.
pub open spec fn strip_tags(s: Seq<char>) -> Seq<char> {
    strip_tags_state(s).0
}

/// Removes HTML tags from `html`: every character from a `<` up to the next
/// `>` is dropped, the brackets included.
pub fn strip_html(html: &str) -> (r: String)
    ensures
        r@ == strip_tags(html@),
{
    let mut result = String::new();
    let mut inside_tag = false;
    let v = chars_of(html);
    let mut i: usize = 0;
    while i < v.len()
        invariant
            i <= v.len(),
            v@ == html@,
            (result@, inside_tag) == strip_tags_state(v@.take(i as int)),
        decreases v.len() - i,
    {
        let ch = v[i];
        assert(v@.take(i + 1).drop_last() == v@.take(i as int));
        if ch == '<' {
            inside_tag = true;
        } else if ch == '>' {
            inside_tag = false;
        } else if !inside_tag {
            crate::text::string_push(&mut result, ch);
        }
        i += 1;
    }
    assert(v@.take(v.len() as int) == v@);
    result
}

proof fn lemma_strip_tags_state(s: Seq<char>)
    ensures
        forall|k: int| 0 <= k < strip_tags(s).len() ==> #[trigger] strip_tags(s)[k] != '<'
            && strip_tags(s)[k] != '>',
        (forall|k: int| 0 <= k < s.len() ==> #[trigger] s[k] != '<' && s[k] != '>') ==> strip_tags_state(s) == (s, false),
    decreases s.len(),
{
    if s.len() > 0 {
        let d = s.drop_last();
        lemma_strip_tags_state(d);
        let out = strip_tags(d);
        let r = strip_tags(s);
        assert forall|k: int| 0 <= k < r.len() implies #[trigger] r[k] != '<' && r[k] != '>' by {
            if k < out.len() {
                assert(r[k] == out[k]);
            }
        }
        if forall|k: int| 0 <= k < s.len() ==> #[trigger] s[k] != '<' && s[k] != '>' {
            assert forall|k: int| 0 <= k < d.len() implies #[trigger] d[k] != '<' && d[k] != '>' by {
                assert(d[k] == s[k]);
            }
            assert(s[s.len() - 1] != '<' && s[s.len() - 1] != '>');
            assert(d.push(s.last()) =~= s);
        }
    }
}

/// Stripping leaves no tag bracket behind, and stripping twice is stripping
/// once.
pub proof fn law_strip_html_idempotent(s: Seq<char>)
    ensures
        forall|k: int| 0 <= k < strip_tags(s).len() ==> #[trigger] strip_tags(s)[k] != '<'
            && strip_tags(s)[k] != '>',
        strip_tags(strip_tags(s)) == strip_tags(s),
{
    lemma_strip_tags_state(s);
    lemma_strip_tags_state(strip_tags(s));
}

// ───────────────────────── date normalisation ─────────────────────────

/// What `chrono::DateTime::<FixedOffset>::parse_from_rfc3339` gives for `s`,
/// written back with `to_rfc3339`; `None` where it does not parse.
pub uninterp spec fn rfc3339_reformat_of(s: Seq<char>) -> Option<Seq<char>>;

/// What `chrono::NaiveDateTime::parse_from_str(s, parse_format)` gives,
/// written back with `format(out_format)`; `None` where it does not parse.
pub uninterp spec fn naive_datetime_reformat_of(s: Seq<char>, parse_format: Seq<char>, out_format: Seq<char>) -> Option<Seq<char>>;

/// What `chrono::NaiveDate::parse_from_str(s, parse_format)` gives, written
/// back with `format(out_format)`; `None` where it does not parse.
pub uninterp spec fn naive_date_reformat_of(s: Seq<char>, parse_format: Seq<char>, out_format: Seq<char>) -> Option<Seq<char>>;

/// `chrono::DateTime::<FixedOffset>::parse_from_rfc3339`, then
/// `to_rfc3339`.  The parser's result is named, not written out.
#[verifier::external_body]
fn rfc3339_reformat(s: &str) -> (r: Option<String>)
    ensures
        opt_view(r) == rfc3339_reformat_of(s@),
{
    match chrono::DateTime::<chrono::FixedOffset>::parse_from_rfc3339(s) {
        Ok(dt) => Some(dt.to_rfc3339()),
        Err(_) => None,
    }
}

/// The output formats that the date helpers write: they hold no specifier
/// that `chrono`'s `format` could fail on.
pub open spec fn is_iso_out_format(f: Seq<char>) -> bool {
    f == "%Y-%m-%dT%H:%M:%S"@ || f == "%Y-%m-%dT00:00:00"@
}

/// `chrono::NaiveDateTime::parse_from_str`, then `format(out_format)`.  The
/// result is named, not written out.
#[verifier::external_body]
fn naive_datetime_reformat(s: &str, parse_format: &str, out_format: &str) -> (r: Option<String>)
    requires
        is_iso_out_format(out_format@),
    ensures
        opt_view(r) == naive_datetime_reformat_of(s@, parse_format@, out_format@),
{
    match chrono::NaiveDateTime::parse_from_str(s, parse_format) {
        Ok(t) => Some(t.format(out_format).to_string()),
        Err(_) => None,
    }
}

/// `chrono::NaiveDate::parse_from_str`, then `format(out_format)`.  The
/// result is named, not written out.  A date has no time of day, so the
/// output format holds no time specifier (`format` would fail on one).
#[verifier::external_body]
fn naive_date_reformat(s: &str, parse_format: &str, out_format: &str) -> (r: Option<String>)
    requires
        out_format@ == "%Y-%m-%dT00:00:00"@,
    ensures
        opt_view(r) == naive_date_reformat_of(s@, parse_format@, out_format@),
{
    match chrono::NaiveDate::parse_from_str(s, parse_format) {
        Ok(d) => Some(d.format(out_format).to_string()),
        Err(_) => None,
    }
}

/// The ISO 8601 form of a date text: an RFC 3339 time written back in
/// RFC 3339; `YYYY-MM-DD HH:MM:SS` as `YYYY-MM-DDTHH:MM:SS`; `YYYY-MM-DD` as
/// `YYYY-MM-DDT00:00:00`; anything else unchanged.  The first form that
/// parses wins.
pub open spec fn iso_date_spec(s: Seq<char>) -> Seq<char> {
    if let Some(t) = rfc3339_reformat_of(s) {
        t
    } else if let Some(t) = naive_datetime_reformat_of(s, "%Y-%m-%d %H:%M:%S"@, "%Y-%m-%dT%H:%M:%S"@) {
        t
    } else if let Some(t) = naive_date_reformat_of(s, "%Y-%m-%d"@, "%Y-%m-%dT00:00:00"@) {
        t
    } else {
        s
    }
}

/// Normalises a date text to ISO 8601 (see `iso_date_spec`).
pub fn iso_date(date_str: &str) -> (r: String)
    ensures
        r@ == iso_date_spec(date_str@),
{
    if let Some(t) = rfc3339_reformat(date_str) {
        return t;
    }
    if let Some(t) = naive_datetime_reformat(date_str, "%Y-%m-%d %H:%M:%S", "%Y-%m-%dT%H:%M:%S") {
        return t;
    }
    if let Some(t) = naive_date_reformat(date_str, "%Y-%m-%d", "%Y-%m-%dT00:00:00") {
        return t;
    }
    date_str.to_owned()
}

/// The error text for a failed HMAC initialisation.
fn hmac_failure(e: &String) -> (r: String)
    ensures
        r@ == "HMAC 初始化失败: "@ + e@,
{
    let mut s = "HMAC 初始化失败: ".to_owned();
    push_all(&mut s, e);
    s
}

} // verus!
