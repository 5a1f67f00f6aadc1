//! Length caps on the text that callers supply.
//!
//! Every surface enforces the same caps. Lengths are counted in bytes of
//! UTF-8, the unit that everything downstream sees.
use vstd::prelude::*;
use vstd::utf8::encode_utf8;
use crate::text::{append_chars, append_str, decimal, decimal_chars, string_of};

verus! {

/// Most bytes in `q` of a search.
pub const SEARCH_Q: usize = 512;

/// Most bytes in `q` of an autocomplete request.
pub const AUTOCOMPLETE_Q: usize = 128;

/// Most bytes in any one structured field (street, city, state).
pub const STRUCTURED_FIELD: usize = 256;

/// Most bytes in a postcode.
pub const POSTCODE: usize = 16;

/// Most bytes in a house number.
pub const HOUSENUMBER: usize = 32;

/// Most bytes in a country code.
pub const COUNTRY_CODE: usize = 2;

/// Most bytes in a comma-separated list of country codes.
pub const COUNTRY_CODE_LIST: usize = 64;

/// Most bytes in a language tag.
pub const LANG: usize = 16;

/// Most bytes in a textual IP address.
pub const IP: usize = 64;

/// What a caller is told about a value that is too long.
pub open spec fn too_long(name: Seq<char>, len: nat, max: nat) -> Seq<char> {
    name + ": input is "@ + decimal(len) + " bytes; max allowed is "@ + decimal(max)
}

/// Checks that `value` has at most `max` bytes.
pub fn check(name: &str, value: &str, max: usize) -> (r: Result<(), String>)
    ensures
        match r {
            Ok(_) => encode_utf8(value@).len() <= max,
            Err(m) => encode_utf8(value@).len() > max && m@ == too_long(
                name@,
                encode_utf8(value@).len(),
                max as nat,
            ),
        },
{
    let len: usize = value.as_bytes().len();
    if len > max {
        let mut out: Vec<char> = Vec::new();
        append_str(&mut out, name);
        append_str(&mut out, ": input is ");
        append_chars(&mut out, &decimal_chars(len as u64));
        append_str(&mut out, " bytes; max allowed is ");
        append_chars(&mut out, &decimal_chars(max as u64));
        assert(out@ =~= too_long(name@, len as nat, max as nat));
        return Err(string_of(&out));
    }
    Ok(())
}

} // verus!
