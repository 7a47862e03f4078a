//! Upload limits and storage paths.
use crate::config::MediaConfig;
use crate::text::is_ascii_digit;
use crate::text::{
    chars_of, ends_with, ends_with_at, parse_unsigned, parse_unsigned_chars, str_to_uppercase,
    string_push_str, trim, trim_bounds, trimmed_string, upper_of, vec_range, push_all, dec,
    digit_char, digit_of, string_push, u64_to_string,
};
use vstd::prelude::*;

verus! {

/// A size limit split into its number and the multiplier of its unit suffix
/// (`GB`, `MB`, `KB`, `B` or none).
pub open spec fn size_parts(s: Seq<char>) -> (Seq<char>, nat) {
    if ends_with(s, "GB"@) {
        (s.take(s.len() - 2), 1073741824)
    } else if ends_with(s, "MB"@) {
        (s.take(s.len() - 2), 1048576)
    } else if ends_with(s, "KB"@) {
        (s.take(s.len() - 2), 1024)
    } else if ends_with(s, "B"@) {
        (s.take(s.len() - 1), 1)
    } else {
        (s, 1)
    }
}

/// The number of bytes an upper-cased size limit stands for; a number that
/// does not parse counts as zero.
pub open spec fn size_of_upper(s: Seq<char>) -> nat {
    let (num, m) = size_parts(s);
    let n = match parse_unsigned(trim(num), usize::MAX as nat) {
        Some(v) => v,
        None => 0,
    };
    n * m
}

/// The number of bytes a size limit such as `10MB` stands for (units are
/// read without regard to case).
pub open spec fn max_size_spec(size_str: Seq<char>) -> nat {
    size_of_upper(upper_of(trim(size_str)))
}

/// The number and unit multiplier of an upper-cased size limit.
fn split_size(s: &Vec<char>) -> (r: (usize, usize))
    ensures
        r.1 == size_parts(s@).1,
        r.0 == match parse_unsigned(trim(size_parts(s@).0), usize::MAX as nat) {
            Some(v) => v,
            None => 0,
        },
        r.1 >= 1,
{
    let gb = chars_of("GB");
    let mb = chars_of("MB");
    let kb = chars_of("KB");
    let b = chars_of("B");
    proof {
        reveal_strlit("GB");
        reveal_strlit("MB");
        reveal_strlit("KB");
        reveal_strlit("B");
        assert(s@.subrange(0, s@.len() as int) == s@);
    }
    let n = s.len();
    let (end, mult): (usize, usize) = if ends_with_at(s, 0, n, &gb) {
        (n - 2, 1073741824)
    } else if ends_with_at(s, 0, n, &mb) {
        (n - 2, 1048576)
    } else if ends_with_at(s, 0, n, &kb) {
        (n - 2, 1024)
    } else if ends_with_at(s, 0, n, &b) {
        (n - 1, 1)
    } else {
        (n, 1)
    };
    assert(size_parts(s@).0 == s@.subrange(0, end as int));
    let (x, y) = trim_bounds(s, 0, end);
    let seg = vec_range(s, x, y);
    let v: usize = match parse_unsigned_chars(&seg, usize::MAX as u64) {
        Some(v) => v as usize,
        None => 0,
    };
    (v, mult)
}

/// The size limit `size_str` in bytes, e.g. `10MB` is 10485760.
pub fn parse_max_size(size_str: &str) -> (r: usize)
    requires
        max_size_spec(size_str@) <= usize::MAX,
    ensures
        r == max_size_spec(size_str@),
{
    let sv = chars_of(size_str);
    let trimmed = trimmed_string(&sv, 0, sv.len());
    assert(sv@.subrange(0, sv@.len() as int) == size_str@);
    let upper = str_to_uppercase(trimmed.as_str());
    let uv = chars_of(upper.as_str());
    let (n, m) = split_size(&uv);
    n * m
}

/// The size limit in bytes, or `None` when it does not fit in a `usize`.
pub fn checked_max_size(size_str: &str) -> (r: Option<usize>)
    ensures
        r == if max_size_spec(size_str@) <= usize::MAX {
            Some(max_size_spec(size_str@) as usize)
        } else {
            None::<usize>
        },
{
    let sv = chars_of(size_str);
    let trimmed = trimmed_string(&sv, 0, sv.len());
    assert(sv@.subrange(0, sv@.len() as int) == size_str@);
    let upper = str_to_uppercase(trimmed.as_str());
    let uv = chars_of(upper.as_str());
    let (n, m) = split_size(&uv);
    if n > usize::MAX / m {
        assert(n * m > usize::MAX) by (nonlinear_arith)
            requires
                n > usize::MAX / m,
                m >= 1,
        ;
        None
    } else {
        assert(n * m <= usize::MAX) by (nonlinear_arith)
            requires
                n <= usize::MAX / m,
                m >= 1,
        ;
        Some(parse_max_size(size_str))
    }
}

/// Why an upload was refused.
#[derive(Debug)]
pub enum UploadError {
    /// The file has `size` bytes, more than the configured `limit`.
    TooLarge { size: usize, limit: String },
    /// Files of type `mime_type` are not accepted.
    UnsupportedType { mime_type: String },
}

/// Whether `v` holds `x`.
fn contains_string(v: &Vec<String>, x: &str) -> (r: bool)
    ensures
        r == v.deep_view().contains(x@),
{
    let mut i: usize = 0;
    while i < v.len()
        invariant
            i <= v.len(),
            forall|j: int| 0 <= j < i ==> v.deep_view()[j] != x@,
        decreases v.len() - i,
    {
        if crate::builder::keyed::str_eq(v[i].as_str(), x) {
            assert(v.deep_view()[i as int] == x@);
            return true;
        }
        i += 1;
    }
    false
}

/// What checking an upload of `len` bytes of type `mime` gives under the
/// limit `limit` and the accepted types `allowed`.
pub open spec fn upload_verdict(
    r: Result<(), UploadError>,
    len: nat,
    mime: Seq<char>,
    limit: Seq<char>,
    allowed: Seq<Seq<char>>,
) -> bool {
    if len > max_size_spec(limit) {
        match r {
            Err(UploadError::TooLarge { size, limit: l }) => size == len && l@ == limit,
            _ => false,
        }
    } else if !allowed.contains(mime) {
        match r {
            Err(UploadError::UnsupportedType { mime_type }) => mime_type@ == mime,
            _ => false,
        }
    } else {
        r is Ok
    }
}

/// Checks an upload against the media configuration: first its size against
/// `max_file_size`, then its type against `allowed_types`.
pub fn validate_upload(data: &[u8], mime_type: &str, config: &MediaConfig) -> (r: Result<
    (),
    UploadError,
>)
    requires
        max_size_spec(config.max_file_size@) <= usize::MAX,
    ensures
        upload_verdict(
            r,
            data@.len(),
            mime_type@,
            config.max_file_size@,
            config.allowed_types.deep_view(),
        ),
{
    let max_size = parse_max_size(config.max_file_size.as_str());
    if data.len() > max_size {
        return Err(UploadError::TooLarge { size: data.len(), limit: config.max_file_size.clone() });
    }
    if !contains_string(&config.allowed_types, mime_type) {
        return Err(UploadError::UnsupportedType { mime_type: mime_type.to_owned() });
    }
    Ok(())
}

/// `validate_upload`, or `None` when the configured limit does not fit in a
/// `usize`.
pub fn checked_validate_upload(data: &[u8], mime_type: &str, config: &MediaConfig) -> (r: Option<
    Result<(), UploadError>,
>)
    ensures
        r is None <==> max_size_spec(config.max_file_size@) > usize::MAX,
        r matches Some(v) ==> upload_verdict(
            v,
            data@.len(),
            mime_type@,
            config.max_file_size@,
            config.allowed_types.deep_view(),
        ),
{
    match checked_max_size(config.max_file_size.as_str()) {
        Some(_) => Some(validate_upload(data, mime_type, config)),
        None => None,
    }
}

/// The storage path (below the upload directory) and public URL of an upload
/// stored under `year`/`month` as `id`, with the extension of the uploaded
/// file's name or `bin`.
pub open spec fn storage_paths(
    year: Seq<char>,
    month: Seq<char>,
    id: Seq<char>,
    ext: Option<Seq<char>>,
) -> (Seq<char>, Seq<char>) {
    let e = match ext {
        Some(x) => x,
        None => "bin"@,
    };
    let rel = year + "/"@ + month + "/"@ + id + "."@ + e;
    (rel, "/media/"@ + rel)
}

/// The text `%Y` gives for a year: four digits for years 0 to 9999, else a
/// sign and at least four digits.
pub open spec fn year_text_ok(y: Seq<char>) -> bool {
    ||| y.len() == 4 && forall|i: int| 0 <= i < 4 ==> is_ascii_digit(#[trigger] y[i])
    ||| y.len() >= 5 && (y[0] == '+' || y[0] == '-') && forall|i: int|
        1 <= i < y.len() ==> is_ascii_digit(#[trigger] y[i])
}

/// The text `%m` gives for a month: `01` to `12`.
pub open spec fn month_text_ok(m: Seq<char>) -> bool {
    m.len() == 2 && ((m[0] == '0' && '1' <= m[1] <= '9') || (m[0] == '1' && '0' <= m[1] <= '2'))
}

/// The current UTC year (`%Y`) and month (`%m`), from `chrono::Utc::now`
/// formatted with `chrono`'s `format`.  The values depend on the clock, so
/// only the shape of each text is claimed, as `chrono`'s formatting code
/// writes it.
#[verifier::external_body]
fn utc_year_month() -> (r: (String, String))
    ensures
        year_text_ok(r.0@),
        month_text_ok(r.1@),
{
    let now = chrono::Utc::now();
    (now.format("%Y").to_string(), now.format("%m").to_string())
}

/// A fresh ULID (`ulid::Ulid::new`) in its 26-character Crockford base32
/// text form.  It depends on the clock and on chance, so only its length is
/// claimed.
#[verifier::external_body]
fn new_ulid_string() -> (r: String)
    ensures
        r@.len() == 26,
{
    ulid::Ulid::new().to_string()
}

/// The storage path and URL of an upload stored as `id` under
/// `year`/`month`, keeping the extension of `original_name`.
pub fn storage_paths_for(year: &str, month: &str, id: &str, original_name: &str) -> (r: (
    String,
    String,
))
    ensures
        (r.0@, r.1@) == storage_paths(year@, month@, id@, crate::paths::path_extension_of(original_name@)),
{
    let ext = match crate::paths::path_extension(original_name) {
        Some(e) => e,
        None => "bin".to_owned(),
    };
    let mut rel = year.to_owned();
    string_push_str(&mut rel, "/");
    string_push_str(&mut rel, month);
    string_push_str(&mut rel, "/");
    string_push_str(&mut rel, id);
    string_push_str(&mut rel, ".");
    push_all(&mut rel, &ext);
    let mut url = "/media/".to_owned();
    push_all(&mut url, &rel);
    (rel, url)
}

/// A new storage path and URL for an upload named `original_name`: the
/// current year and month, a fresh ULID and the file name's extension.
pub fn generate_storage_path(original_name: &str) -> (r: (String, String))
    ensures
        exists|year: Seq<char>, month: Seq<char>, id: Seq<char>|
            year_text_ok(year) && month_text_ok(month) && id.len() == 26 && (r.0@, r.1@) == storage_paths(
                year,
                month,
                id,
                crate::paths::path_extension_of(original_name@),
            ),
{
    let (year, month) = utc_year_month();
    let id = new_ulid_string();
    storage_paths_for(year.as_str(), month.as_str(), id.as_str(), original_name)
}

// ───────────────────────── human-readable sizes ─────────────────────────

/// `2^e`.
pub open spec fn pow2n(e: nat) -> nat
    decreases e,
{
    if e == 0 {
        1
    } else {
        2 * pow2n((e - 1) as nat)
    }
}

/// How many low bits of `b` fall outside the 53 significant bits of an
/// `f64`.
pub open spec fn excess_bits(b: nat) -> nat
    decreases b,
{
    if b < 0x20_0000_0000_0000 {
        0
    } else {
        1 + excess_bits(b / 2)
    }
}

/// `n / d` rounded to the nearest integer, ties to the even one.
pub open spec fn div_round_even(n: nat, d: nat) -> nat {
    let q = n / d;
    let r = n % d;
    if r * 2 > d || (r * 2 == d && q % 2 == 1) {
        q + 1
    } else {
        q
    }
}

/// The value of `b as f64`: `b` rounded to 53 significant bits, ties to
/// even (exact below `2^53`).
pub open spec fn f64_value(b: nat) -> nat {
    let unit = pow2n(excess_bits(b));
    div_round_even(b, unit) * unit
}

/// A count of tenths written with one decimal: `12` is `1.2`.
pub open spec fn one_decimal(tenths: nat) -> Seq<char> {
    dec(tenths / 10).push('.').push(digit_char(tenths % 10))
}

/// A byte count for people: bytes below 1 KiB, then KiB below 1 MiB, then
/// MiB, with one decimal rounded as `{:.1}` rounds the `f64` quotient (to
/// nearest, ties to even).
pub open spec fn format_size_spec(b: nat) -> Seq<char> {
    if b >= 1048576 {
        one_decimal(div_round_even(f64_value(b) * 10, 1048576)) + "MB"@
    } else if b >= 1024 {
        one_decimal(div_round_even(f64_value(b) * 10, 1024)) + "KB"@
    } else {
        dec(b) + "B"@
    }
}

fn div_round_even_exec(n: u128, d: u128) -> (r: u128)
    requires
        0 < d <= 0x10_0000,
    ensures
        r == div_round_even(n as nat, d as nat),
{
    let q = n / d;
    let r = n % d;
    if r * 2 > d || (r * 2 == d && q % 2 == 1) {
        proof {
            vstd::arithmetic::div_mod::lemma_fundamental_div_mod(n as int, d as int);
            assert(q < n || n == 0 || d == 1) by (nonlinear_arith)
                requires
                    n == d * q + r,
                    r * 2 > d || r * 2 == d,
                    0 < d,
            ;
        }
        q + 1
    } else {
        q
    }
}

/// The value of `b as f64`.
fn f64_value_exec(b: u64) -> (r: u128)
    ensures
        r == f64_value(b as nat),
        r <= b + 0x1000,
{
    let mut n: u64 = b;
    let mut unit: u128 = 1;
    let ghost mut k: nat = 0;
    while n >= 0x20_0000_0000_0000
        invariant
            n == (b as nat) / (unit as nat),
            unit == pow2n(k),
            excess_bits(b as nat) == k + excess_bits(n as nat),
            1 <= unit <= 0x1000,
        decreases n,
    {
        proof {
            vstd::arithmetic::div_mod::lemma_fundamental_div_mod(b as int, unit as int);
            assert(unit * 2 <= 0x1000) by (nonlinear_arith)
                requires
                    b == unit * n + ((b as int) % (unit as int)),
                    0 <= (b as int) % (unit as int),
                    n >= 0x20_0000_0000_0000,
                    b < 0x1_0000_0000_0000_0000,
                    unit >= 1,
            ;
            vstd::arithmetic::div_mod::lemma_div_denominator(b as int, unit as int, 2);
        }
        n = n / 2;
        unit = unit * 2;
        proof {
            k = k + 1;
        }
    }
    let q = (b as u128) / unit;
    let r = (b as u128) % unit;
    proof {
        vstd::arithmetic::div_mod::lemma_fundamental_div_mod(b as int, unit as int);
    }
    if r * 2 > unit || (r * 2 == unit && q % 2 == 1) {
        assert((q + 1) * unit <= b + unit) by (nonlinear_arith)
            requires
                b == unit * q + r,
                r >= 0,
        ;
        (q + 1) * unit
    } else {
        assert(q * unit <= b) by (nonlinear_arith)
            requires
                b == unit * q + r,
                r >= 0,
        ;
        q * unit
    }
}

/// `tenths` written with one decimal.
fn one_decimal_exec(tenths: u64) -> (r: String)
    ensures
        r@ == one_decimal(tenths as nat),
{
    let mut s = u64_to_string(tenths / 10);
    string_push(&mut s, '.');
    string_push(&mut s, digit_of((tenths % 10) as usize));
    s
}

/// A byte count for people (see `format_size_spec`).
pub fn format_size(bytes: usize) -> (r: String)
    ensures
        r@ == format_size_spec(bytes as nat),
{
    if bytes >= 1048576 {
        let f = f64_value_exec(bytes as u64);
        let t = div_round_even_exec(f * 10, 1048576);
        assert(t <= 0x1_0000_0000_0000_0000) by (nonlinear_arith)
            requires
                t <= (f * 10) / 1048576 + 1,
                f <= 0x1_0000_0000_0000_1000,
        ;
        let mut s = one_decimal_exec(t as u64);
        string_push_str(&mut s, "MB");
        s
    } else if bytes >= 1024 {
        let f = f64_value_exec(bytes as u64);
        let t = div_round_even_exec(f * 10, 1024);
        let mut s = one_decimal_exec(t as u64);
        string_push_str(&mut s, "KB");
        s
    } else {
        let mut s = u64_to_string(bytes as u64);
        string_push_str(&mut s, "B");
        s
    }
}

impl UploadError {
    /// The message shown for a refused upload.
    pub fn to_message(&self) -> (r: String)
        ensures
            r@ == match self {
                UploadError::TooLarge { size, limit } => "文件大小 "@ + format_size_spec(*size as nat) + " 超出限制 "@
                    + limit@,
                UploadError::UnsupportedType { mime_type } => "不支持的文件类型："@ + mime_type@,
            },
    {
        match self {
            UploadError::TooLarge { size, limit } => {
                let mut m = "文件大小 ".to_owned();
                let s = format_size(*size);
                push_all(&mut m, &s);
                string_push_str(&mut m, " 超出限制 ");
                push_all(&mut m, limit);
                m
            },
            UploadError::UnsupportedType { mime_type } => {
                let mut m = "不支持的文件类型：".to_owned();
                push_all(&mut m, mime_type);
                m
            },
        }
    }
}

} // verus!
