//! Admin sessions: passwords, session lifetimes, cookies and the login
//! rate limit.
use crate::text::{
    chars_of, dec, index_of_exec, parse_unsigned, parse_unsigned_chars, split_on, starts_with,
    starts_with_at, string_of_range, string_push_str, trim, trim_bounds, utf8_len, vec_range,
    push_all, byte_len,
};
use argon2::password_hash::rand_core::OsRng;
use argon2::password_hash::SaltString;
use argon2::{Argon2, PasswordHash, PasswordHasher, PasswordVerifier};
use vstd::prelude::*;

verus! {

/// The signed-in admin user.
#[derive(Debug, Clone)]
pub struct AuthUser {
    pub id: String,
    pub username: String,
}

/// The login form.
#[derive(Debug)]
pub struct LoginForm {
    pub username: String,
    pub password: String,
}

/// The change-password form.
#[derive(Debug)]
pub struct ChangePasswordForm {
    pub old_password: String,
    pub new_password: String,
}

// ───────────────────────── passwords ─────────────────────────

/// Whether `password` matches the PHC-format Argon2 hash `hash`, as
/// `argon2::Argon2::default().verify_password` decides; `None` when `hash`
/// does not parse (`argon2::PasswordHash::new` fails).
pub uninterp spec fn argon2_verdict(password: Seq<char>, hash: Seq<char>) -> Option<bool>;

/// Hashes `password` with `argon2::Argon2::default()` and a fresh random
/// salt (`SaltString::generate(&mut OsRng)`), giving the PHC string or the
/// crate's error text.  The salt is random, so the hash itself is not
/// named; what is claimed is what the crate is for: the hash it gives parses
/// and accepts the same password.  The only input the crate refuses is a
/// password longer than `u32::MAX` bytes (`Error::PwdTooLong`); the salt it
/// is given is always valid.
#[verifier::external_body]
fn argon2_hash(password: &str) -> (r: Result<String, String>)
    ensures
        r matches Ok(h) ==> argon2_verdict(password@, h@) == Some(true),
        byte_len(password@) <= 0xFFFF_FFFF ==> r is Ok,
{
    let salt = SaltString::generate(&mut OsRng);
    match Argon2::default().hash_password(password.as_bytes(), &salt) {
        Ok(h) => Ok(h.to_string()),
        Err(e) => Err(e.to_string()),
    }
}

/// Checks `password` against the PHC string `hash` with
/// `argon2::PasswordHash::new` and `Argon2::default().verify_password`:
/// `Err` with the crate's error text when the hash does not parse, else
/// whether it accepts the password.
#[verifier::external_body]
fn argon2_verify(password: &str, hash: &str) -> (r: Result<bool, String>)
    ensures
        r matches Ok(b) ==> argon2_verdict(password@, hash@) == Some(b),
        r is Err ==> argon2_verdict(password@, hash@) is None,
{
    match PasswordHash::new(hash) {
        Ok(parsed) => Ok(Argon2::default().verify_password(password.as_bytes(), &parsed).is_ok()),
        Err(e) => Err(e.to_string()),
    }
}

/// Why a password could not be hashed or checked.
#[derive(Debug)]
pub struct PasswordError {
    pub message: String,
}

/// Hashes a password for storage (Argon2, random salt); only a password of
/// more than `u32::MAX` bytes is refused.
pub fn hash_password(password: &str) -> (r: Result<String, PasswordError>)
    ensures
        r matches Ok(h) ==> argon2_verdict(password@, h@) == Some(true),
        byte_len(password@) <= 0xFFFF_FFFF ==> r is Ok,
        r matches Err(e) ==> starts_with(e.message@, "密码哈希失败: "@),
{
    match argon2_hash(password) {
        Ok(h) => Ok(h),
        Err(e) => {
            let mut m = "密码哈希失败: ".to_owned();
            push_all(&mut m, &e);
            proof {
                assert(m@.take("密码哈希失败: "@.len() as int) =~= "密码哈希失败: "@);
            }
            Err(PasswordError { message: m })
        },
    }
}

/// Whether `password` matches the stored hash; an error when the hash does
/// not parse.
pub fn verify_password(password: &str, hash: &str) -> (r: Result<bool, PasswordError>)
    ensures
        r matches Ok(b) ==> argon2_verdict(password@, hash@) == Some(b),
        r is Err ==> argon2_verdict(password@, hash@) is None,
        r matches Err(e) ==> starts_with(e.message@, "解析密码哈希失败: "@),
{
    match argon2_verify(password, hash) {
        Ok(b) => Ok(b),
        Err(e) => {
            let mut m = "解析密码哈希失败: ".to_owned();
            push_all(&mut m, &e);
            proof {
                assert(m@.take("解析密码哈希失败: "@.len() as int) =~= "解析密码哈希失败: "@);
            }
            Err(PasswordError { message: m })
        },
    }
}

/// A password that was just hashed is accepted by its hash: for a hash that
/// `hash_password` gave for `password` (so its verdict is `Some(true)`),
/// any result `r` that `verify_password` may give for them is `Ok(true)`.
pub proof fn law_hashed_password_verifies(password: Seq<char>, hash: Seq<char>, r: Result<bool, PasswordError>)
    requires
        argon2_verdict(password, hash) == Some(true),
        r matches Ok(b) ==> argon2_verdict(password, hash) == Some(b),
        r is Err ==> argon2_verdict(password, hash) is None,
    ensures
        r matches Ok(b) && b,
{
}

// ───────────────────────── session lifetimes ─────────────────────────

/// Seconds per unit of a session lifetime (`d`, `h`, `m`, `s`).
pub open spec fn unit_seconds(u: char) -> Option<nat> {
    if u == 'd' {
        Some(86400)
    } else if u == 'h' {
        Some(3600)
    } else if u == 'm' {
        Some(60)
    } else if u == 's' {
        Some(1)
    } else {
        None
    }
}

/// `n` units `u` in seconds.
pub open spec fn duration_seconds(n: nat, u: char) -> nat {
    if u == 'd' {
        n * 86400
    } else if u == 'h' {
        n * 3600
    } else if u == 'm' {
        n * 60
    } else {
        n
    }
}

/// Why a session lifetime could not be read.
#[derive(Debug, PartialEq, Eq)]
pub enum DurationError {
    /// The part before the unit is not a number.
    InvalidNumber,
    /// The last character is not a known unit.
    UnsupportedUnit { unit: char },
}

impl DurationError {
    /// The message reported for the error.
    pub fn to_message(&self) -> (r: String)
        ensures
            r@ == match self {
                DurationError::InvalidNumber => "无效的时间数值"@,
                DurationError::UnsupportedUnit { unit } => "不支持的时间单位: "@ + seq![*unit],
            },
    {
        match self {
            DurationError::InvalidNumber => "无效的时间数值".to_owned(),
            DurationError::UnsupportedUnit { unit } => {
                let mut m = "不支持的时间单位: ".to_owned();
                crate::text::string_push(&mut m, *unit);
                m
            },
        }
    }
}

/// The number of a lifetime such as `7d` (everything before the last
/// character of the trimmed text), if it is one.
pub open spec fn duration_number(s: Seq<char>) -> Option<nat> {
    parse_unsigned(trim(s).drop_last(), u64::MAX as nat)
}

/// Whether `parse_duration` can read `s` without failing on its own
/// arithmetic or text slicing: the trimmed text is not empty, ends with a
/// one-byte character, and a valid lifetime fits in 64 bits.
pub open spec fn duration_readable(s: Seq<char>) -> bool {
    &&& trim(s).len() > 0
    &&& utf8_len(trim(s).last()) == 1
    &&& (duration_number(s) matches Some(n) ==> (unit_seconds(trim(s).last()) is Some
        ==> duration_seconds(n, trim(s).last()) <= u64::MAX))
}

/// A session lifetime such as `7d`, `12h`, `30m` or `45s`, in seconds.
pub fn parse_duration(s: &str) -> (r: Result<u64, DurationError>)
    requires
        duration_readable(s@),
    ensures
        match duration_number(s@) {
            None => r == Err::<u64, DurationError>(DurationError::InvalidNumber),
            Some(n) => match unit_seconds(trim(s@).last()) {
                None => r == Err::<u64, DurationError>(
                    DurationError::UnsupportedUnit { unit: trim(s@).last() },
                ),
                Some(m) => r matches Ok(v) && v == duration_seconds(n, trim(s@).last()),
            },
        },
{
    let v = chars_of(s);
    let (a, b) = trim_bounds(&v, 0, v.len());
    assert(v@.subrange(0, v@.len() as int) == s@);
    let num = vec_range(&v, a, b - 1);
    let unit = v[b - 1];
    assert(trim(s@).drop_last() == num@);
    assert(trim(s@).last() == unit);
    let n = match parse_unsigned_chars(&num, u64::MAX) {
        Some(n) => n,
        None => return Err(DurationError::InvalidNumber),
    };
    if unit == 'd' {
        assert(unit_seconds(unit) == Some(86400nat));
        Ok(n * 86400)
    } else if unit == 'h' {
        assert(unit_seconds(unit) == Some(3600nat));
        Ok(n * 3600)
    } else if unit == 'm' {
        assert(unit_seconds(unit) == Some(60nat));
        Ok(n * 60)
    } else if unit == 's' {
        assert(unit_seconds(unit) == Some(1nat));
        Ok(n)
    } else {
        Err(DurationError::UnsupportedUnit { unit })
    }
}

// ───────────────────────── cookies ─────────────────────────

/// The value of cookie `name` in a `Cookie` header split at `;`: the first
/// piece that, trimmed, starts with `name` decides; it must go on with `=`
/// (else there is no value) and a non-empty value (else the search goes on).
pub open spec fn cookie_value_scan(parts: Seq<Seq<char>>, name: Seq<char>) -> Option<Seq<char>>
    decreases parts.len(),
{
    if parts.len() == 0 {
        None
    } else {
        let p = trim(parts[0]);
        if starts_with(p, name) {
            let v = p.skip(name.len() as int);
            if !starts_with(v, "="@) {
                None
            } else if v.len() > 1 {
                Some(v.skip(1))
            } else {
                cookie_value_scan(parts.skip(1), name)
            }
        } else {
            cookie_value_scan(parts.skip(1), name)
        }
    }
}

/// The value of cookie `name` in a `Cookie` header.
pub fn cookie_value(header: &str, name: &str) -> (r: Option<String>)
    ensures
        r matches Some(t) ==> cookie_value_scan(split_on(header@, ';'), name@) == Some(t@),
        r is None ==> cookie_value_scan(split_on(header@, ';'), name@) is None,
{
    let v = chars_of(header);
    let nv = chars_of(name);
    let nl = nv.len();
    let mut start: usize = 0;
    assert(v@.skip(0) == v@);
    loop
        invariant
            start <= v.len(),
            v@ == header@,
            nv@ == name@,
            nl == nv.len(),
            cookie_value_scan(split_on(header@, ';'), name@) == cookie_value_scan(
                split_on(v@.skip(start as int), ';'),
                name@,
            ),
        decreases v.len() - start,
    {
        let k = index_of_exec(&v, ';', start);
        proof {
            crate::text::lemma_split_step(v@, ';', start as int);
            reveal_strlit("=");
        }
        let ghost parts = split_on(v@.skip(start as int), ';');
        assert(parts[0] == v@.subrange(start as int, k as int));
        assert(parts.skip(1) == if k < v.len() {
            split_on(v@.skip(k + 1), ';')
        } else {
            Seq::<Seq<char>>::empty()
        });
        let (a, b) = trim_bounds(&v, start, k);
        let ghost p = v@.subrange(a as int, b as int);
        assert(trim(parts[0]) == p);
        if starts_with_at(&v, a, b, &nv) {
            assert(p.skip(nl as int) == v@.subrange(a + nl, b as int));
            if a + nl >= b || v[a + nl] != '=' {
                proof {
                    let w = p.skip(nl as int);
                    if a + nl < b {
                        assert(w[0] == v@[a + nl]);
                        assert(w.take(1)[0] == w[0]);
                    }
                    assert(!starts_with(w, "="@));
                }
                return None;
            }
            assert(p.skip(nl as int)[0] == v@[a + nl]);
            assert(p.skip(nl as int).take(1) =~= "="@);
            if a + nl + 1 < b {
                assert(p.skip(nl as int).skip(1) == v@.subrange(a + nl + 1, b as int));
                return Some(string_of_range(&v, a + nl + 1, b));
            }
        }
        if k >= v.len() {
            assert(cookie_value_scan(parts.skip(1), name@) is None);
            return None;
        }
        start = k + 1;
    }
}

/// Decimal text of a signed integer.
pub open spec fn int_text(x: int) -> Seq<char> {
    if x < 0 {
        "-"@ + dec((-x) as nat)
    } else {
        dec(x as nat)
    }
}

/// The `Set-Cookie` value of a session cookie.
pub open spec fn session_cookie(name: Seq<char>, value: Seq<char>, max_age: int, secure: bool) -> Seq<char> {
    name + "="@ + value + "; HttpOnly; SameSite=Strict; Path=/admin; Max-Age="@ + int_text(max_age) + if secure {
        "; Secure"@
    } else {
        Seq::<char>::empty()
    }
}

/// The `Set-Cookie` value of a session cookie named `name` holding `value`.
pub fn build_cookie(name: &str, value: &str, max_age_secs: i64, secure: bool) -> (r: String)
    ensures
        r@ == session_cookie(name@, value@, max_age_secs as int, secure),
{
    let mut s = name.to_owned();
    string_push_str(&mut s, "=");
    string_push_str(&mut s, value);
    string_push_str(&mut s, "; HttpOnly; SameSite=Strict; Path=/admin; Max-Age=");
    let age = crate::text::i64_to_string(max_age_secs);
    push_all(&mut s, &age);
    if secure {
        string_push_str(&mut s, "; Secure");
    }
    s
}

// ───────────────────────── login requests ─────────────────────────

/// The client address of a login request: the first entry of
/// `X-Forwarded-For`, else `X-Real-IP`, trimmed, else `unknown`.
pub open spec fn client_ip_spec(forwarded_for: Option<Seq<char>>, real_ip: Option<Seq<char>>) -> Seq<
    char,
> {
    match forwarded_for {
        Some(f) => trim(split_on(f, ',')[0]),
        None => match real_ip {
            Some(r) => trim(r),
            None => "unknown"@,
        },
    }
}

/// The client address of a login request, from its `X-Forwarded-For` and
/// `X-Real-IP` headers.
pub fn client_ip(forwarded_for: Option<&str>, real_ip: Option<&str>) -> (r: String)
    ensures
        r@ == client_ip_spec(
            match forwarded_for {
                Some(f) => Some(f@),
                None => None,
            },
            match real_ip {
                Some(x) => Some(x@),
                None => None,
            },
        ),
{
    match forwarded_for {
        Some(f) => {
            let v = chars_of(f);
            let k = index_of_exec(&v, ',', 0);
            proof {
                crate::text::lemma_split_step(v@, ',', 0);
                assert(v@.skip(0) == v@);
            }
            crate::text::trimmed_string(&v, 0, k)
        },
        None => match real_ip {
            Some(x) => {
                let v = chars_of(x);
                assert(v@.subrange(0, v@.len() as int) == v@);
                crate::text::trimmed_string(&v, 0, v.len())
            },
            None => "unknown".to_owned(),
        },
    }
}

/// Login attempts counted per client within this many milliseconds.
pub const LOGIN_WINDOW_MS: u64 = 60000;

/// Login attempts allowed per client within the window.
pub const LOGIN_MAX_ATTEMPTS: usize = 5;

/// The attempts of `times` still inside the window ending at `now`.
pub open spec fn recent_attempts(times: Seq<u64>, now: u64) -> Seq<u64>
    decreases times.len(),
{
    if times.len() == 0 {
        Seq::empty()
    } else {
        let r = recent_attempts(times.drop_last(), now);
        let t = times.last();
        if (if now >= t {
            now - t
        } else {
            0
        }) < LOGIN_WINDOW_MS {
            r.push(t)
        } else {
            r
        }
    }
}

/// Records a login attempt at `now` (milliseconds) for a client whose
/// earlier attempts are `attempts`: attempts older than the window are
/// forgotten; with the limit reached the attempt is refused and not
/// recorded, else it is recorded and allowed.
pub fn register_login_attempt(attempts: &mut Vec<u64>, now: u64) -> (allowed: bool)
    ensures
        allowed == (recent_attempts(old(attempts)@, now).len() < LOGIN_MAX_ATTEMPTS),
        allowed ==> final(attempts)@ == recent_attempts(old(attempts)@, now).push(now),
        !allowed ==> final(attempts)@ == recent_attempts(old(attempts)@, now),
{
    let ghost old_times = attempts@;
    let mut kept: Vec<u64> = Vec::new();
    let mut i: usize = 0;
    while i < attempts.len()
        invariant
            i <= attempts.len(),
            attempts@ == old_times,
            kept@ == recent_attempts(old_times.take(i as int), now),
        decreases attempts.len() - i,
    {
        let t = attempts[i];
        let age = if now >= t {
            now - t
        } else {
            0
        };
        proof {
            assert(old_times.take(i + 1).drop_last() == old_times.take(i as int));
        }
        if age < LOGIN_WINDOW_MS {
            kept.push(t);
        }
        i += 1;
    }
    assert(old_times.take(old_times.len() as int) == old_times);
    if kept.len() >= LOGIN_MAX_ATTEMPTS {
        *attempts = kept;
        false
    } else {
        kept.push(now);
        *attempts = kept;
        true
    }
}

/// However often a client tries, an allowed attempt leaves at most the
/// limit of attempts recorded inside the window.
pub proof fn law_login_attempts_bounded(times: Seq<u64>, now: u64)
    ensures
        recent_attempts(times, now).len() < LOGIN_MAX_ATTEMPTS ==> recent_attempts(times, now).push(
            now,
        ).len() <= LOGIN_MAX_ATTEMPTS,
{
}

/// Whether a session expiring at `exp` (seconds) should be renewed at
/// `now`: when less than a third of its lifetime `total_secs` remains.
pub fn should_renew(exp: u64, now: u64, total_secs: u64) -> (r: bool)
    ensures
        r == ((if exp >= now { exp - now } else { 0 }) < total_secs / 3),
{
    let remaining = if exp >= now {
        exp - now
    } else {
        0
    };
    remaining < total_secs / 3
}

} // verus!
