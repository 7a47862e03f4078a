//! Filters and functions of the admin templates.
use crate::admin::layout::{
    datetime_cut_ok, datetime_text, format_datetime, svg_icon, svg_icon_spec,
};
use vstd::prelude::*;

verus! {

/// Whether `value` can be cut after its nineteenth byte (see
/// `datetime_cut_ok`).
pub fn datetime_cut_ok_exec(value: &str) -> (r: bool)
    ensures
        r == datetime_cut_ok(value@),
{
    let v = crate::text::chars_of(value);
    let head = crate::text::take_bytes_exec(&v, 19);
    let hv = crate::text::chars_of(head.as_str());
    proof {
        crate::text::lemma_take_bytes_len(v@, 19);
    }
    let hb = crate::text::byte_len_range_capped(&hv, 20);
    let vb = crate::text::byte_len_range_capped(&v, 20);
    if vb < 20 {
        hb == vb
    } else {
        hb == 19
    }
}

/// The `format_datetime` filter: an RFC 3339 time as `YYYY-MM-DD HH:MM:SS`.
pub fn filter_format_datetime(value: String) -> (r: String)
    requires
        datetime_cut_ok(value@),
    ensures
        r@ == datetime_text(value@),
{
    format_datetime(value.as_str())
}

/// The `svg_icon` template function.
pub fn fn_svg_icon(name: String) -> (r: String)
    ensures
        r@ == svg_icon_spec(name@),
{
    svg_icon(name.as_str()).to_owned()
}

} // verus!
