//! Settings and request addresses of the smart-meter server.

use vstd::prelude::*;
use crate::text;
use crate::text::{chars_of, parse_unsigned_chars};

verus! {

broadcast use vstd::string::group_string_axioms;

/// Port the REST API listens on when `SERVER_PORT` is unset or not a number.
pub const DEFAULT_SERVER_PORT: i32 = 3000;

/// What `str::parse::<i32>` gives: an optional sign, then decimal digits, the
/// value in the `i32` range; `None` for anything else.
pub open spec fn spec_parse_i32(cs: Seq<char>) -> Option<int> {
    if cs.len() > 1 && cs[0] == '-' {
        let ds = cs.drop_first();
        if text::all_digits(ds, 10) && text::digits_value(ds, 10) <= 0x8000_0000 {
            Some(-text::digits_value(ds, 10))
        } else {
            None
        }
    } else {
        text::parse_unsigned(cs, 10, 0x7fff_ffff)
    }
}

/// Reads a decimal `i32`.
pub fn parse_i32(s: &str) -> (r: Option<i32>)
    ensures
        match spec_parse_i32(s@) {
            Some(v) => r == Some(v as i32),
            None => r is None,
        },
{
    let cs = chars_of(s);
    let n = cs.len();
    if n > 1 && cs[0] == '-' {
        if cs[1] == '+' {
            assert(text::digit_value(cs@.drop_first()[0], 10) is None);
            return None;
        }
        let rest = text::string_of(cs.as_slice(), 1, n);
        let rc = chars_of(rest.as_str());
        assert(rc@ =~= cs@.drop_first());
        assert(text::unsigned_digits(rc@) == rc@);
        match parse_unsigned_chars(rc.as_slice(), 10, 0x8000_0000) {
            Some(m) => {
                if m == 0x8000_0000 {
                    Some(i32::MIN)
                } else {
                    Some(-(m as i32))
                }
            },
            None => None,
        }
    } else {
        match parse_unsigned_chars(cs.as_slice(), 10, 0x7fff_ffff) {
            Some(v) => Some(v as i32),
            None => None,
        }
    }
}

/// The API port from the value of `SERVER_PORT`: the number it holds, else 3000.
pub fn port_setting(value: Option<&str>) -> (port: i32)
    ensures
        port == (match value {
            Some(v) => match spec_parse_i32(v@) {
                Some(p) => p as i32,
                None => DEFAULT_SERVER_PORT,
            },
            None => DEFAULT_SERVER_PORT,
        }),
{
    match value {
        Some(v) => match parse_i32(v) {
            Some(p) => p,
            None => DEFAULT_SERVER_PORT,
        },
        None => DEFAULT_SERVER_PORT,
    }
}

/// The Home Assistant address of the state of `entity_id`.
pub open spec fn state_url_text(base_url: Seq<char>, entity_id: Seq<char>) -> Seq<char> {
    base_url + "/api/states/"@ + entity_id
}

/// `{base_url}/api/states/{entity_id}`.
pub fn state_url(base_url: &str, entity_id: &str) -> (url: String)
    ensures
        url@ == state_url_text(base_url@, entity_id@),
{
    let mut url = base_url.to_string();
    url.append("/api/states/");
    url.append(entity_id);
    url
}

} // verus!
