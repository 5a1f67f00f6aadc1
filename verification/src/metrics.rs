//! Labels of the request metrics.
use vstd::prelude::*;
use crate::text::{
    chars_of, is_ascii_letter, lower_char, opt_str_view, string_of, to_lower, trim_chars, trim_seq,
};

verus! {

/// The label of a country: two ASCII letters in lower case, or `unknown`, so
/// that the label takes few values.
pub open spec fn country_label(raw: Option<Seq<char>>) -> Seq<char> {
    match raw {
        Some(s) => {
            let t = trim_seq(s);
            if t.len() == 2 && is_ascii_letter(t[0]) && is_ascii_letter(t[1]) {
                seq![lower_char(t[0]), lower_char(t[1])]
            } else {
                "unknown"@
            }
        },
        None => "unknown"@,
    }
}

pub(crate) fn is_letter(c: char) -> (r: bool)
    ensures
        r == is_ascii_letter(c),
{
    ('A' <= c && c <= 'Z') || ('a' <= c && c <= 'z')
}

/// The label under which a request for a country is counted.
pub fn canonical_country(raw: Option<&str>) -> (r: String)
    ensures
        r@ == country_label(opt_str_view(raw)),
{
    if let Some(s) = raw {
        let t = trim_chars(&chars_of(s));
        if t.len() == 2 && is_letter(t[0]) && is_letter(t[1]) {
            let mut out: Vec<char> = Vec::new();
            out.push(to_lower(t[0]));
            out.push(to_lower(t[1]));
            assert(out@ =~= seq![lower_char(t@[0]), lower_char(t@[1])]);
            return string_of(&out);
        }
    }
    "unknown".to_owned()
}

/// A label is its own label.
pub proof fn law_label_is_canonical(raw: Option<Seq<char>>)
    ensures
        country_label(Some(country_label(raw))) == country_label(raw),
{
    reveal_strlit("unknown");
    let c = country_label(raw);
    if c == "unknown"@ {
        assert(trim_seq(c) == c);
    } else {
        let t = trim_seq(raw->0);
        assert(c =~= seq![lower_char(t[0]), lower_char(t[1])]);
        assert(trim_seq(c) == c);
        assert(country_label(Some(c)) =~= c);
    }
}

/// Two letters count under themselves in lower case, with white space around them
/// or not; everything else under one label.
pub proof fn law_country_counts_under_itself(s: Seq<char>)
    ensures
        ({
            let t = trim_seq(s);
            let two = t.len() == 2 && is_ascii_letter(t[0]) && is_ascii_letter(t[1]);
            &&& two ==> country_label(Some(s)).len() == 2 && 'a' <= country_label(Some(s))[0] <= 'z'
                && 'a' <= country_label(Some(s))[1] <= 'z'
            &&& two && 'a' <= t[0] <= 'z' && 'a' <= t[1] <= 'z' ==> country_label(Some(s)) == t
            &&& !two ==> country_label(Some(s)) == country_label(None)
        }),
        country_label(None) == "unknown"@,
{
    let t = trim_seq(s);
    if t.len() == 2 {
        assert(seq![t[0], t[1]] =~= t);
    }
}

} // verus!
