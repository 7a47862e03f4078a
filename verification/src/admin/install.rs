//! First-run installation: site details and the first admin account.
use crate::text::{byte_len, trim};
use vstd::prelude::*;

verus! {

/// The installation form.
#[derive(Debug)]
pub struct InstallForm {
    pub site_title: String,
    pub site_subtitle: String,
    pub site_url: String,
    pub admin_email: String,
}

/// The form that creates the first admin account.
#[derive(Debug)]
pub struct RegisterForm {
    pub username: String,
    pub password: String,
    pub confirm_password: String,
}

/// What is wrong with a registration, as the error code shown to the user:
/// the passwords differ, the password is under 6 bytes, or the user name is
/// blank.
pub open spec fn register_error_spec(username: Seq<char>, password: Seq<char>, confirm: Seq<char>) -> Option<
    Seq<char>,
> {
    if password != confirm {
        Some("password_mismatch"@)
    } else if byte_len(password) < 6 {
        Some("password_short"@)
    } else if trim(username).len() == 0 {
        Some("username_empty"@)
    } else {
        None
    }
}

/// The error code of a registration form, or `None` when it can be used.
pub fn register_form_error(form: &RegisterForm) -> (r: Option<String>)
    ensures
        match r {
            Some(e) => register_error_spec(form.username@, form.password@, form.confirm_password@)
                == Some(e@),
            None => register_error_spec(form.username@, form.password@, form.confirm_password@)
                is None,
        },
{
    if !crate::builder::keyed::str_eq(form.password.as_str(), form.confirm_password.as_str()) {
        return Some("password_mismatch".to_owned());
    }
    let pv = crate::text::chars_of(form.password.as_str());
    assert(pv@.subrange(0, pv@.len() as int) == pv@);
    if crate::text::byte_len_range_capped(&pv, 6) < 6 {
        return Some("password_short".to_owned());
    }
    let uv = crate::text::chars_of(form.username.as_str());
    let (a, b) = crate::text::trim_bounds(&uv, 0, uv.len());
    assert(uv@.subrange(0, uv@.len() as int) == uv@);
    if a == b {
        return Some("username_empty".to_owned());
    }
    None
}

} // verus!
