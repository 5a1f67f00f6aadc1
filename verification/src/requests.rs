//! What a request over HTTP asks for, and why it is refused.
//!
//! The checks of a request have an order, and the first that fails decides
//! what the caller is told.
use vstd::prelude::*;
use vstd::utf8::encode_utf8;
use crate::ieee::{at_most64, le64, less64, lt64};
use crate::forward::{parse_freeform_query, tokens, with_role, Role};
use crate::forward_search::{StructuredQuery, KIND_PLACE, KIND_STREET};
use crate::h3_cell::{debug_string, debug_text, parse_h3_res, resolutions};
use crate::limits::{
    check, too_long, AUTOCOMPLETE_Q, COUNTRY_CODE, COUNTRY_CODE_LIST, HOUSENUMBER, IP, LANG,
    POSTCODE, SEARCH_Q, STRUCTURED_FIELD,
};
use crate::openaddresses::{code_of, code_text, parse_code};
use crate::text::{
    append_str, chars_of, nonempty, nonempty_pieces, opt_str_view, opt_view, split_on, split_seq,
    str_eq, string_of, string_views, to_upper, trim_chars, trim_seq, upper_char, views,
};

verus! {

broadcast use vstd::seq::group_seq_axioms;

pub const BAD_REQUEST: u16 = 400;

pub const NOT_FOUND: u16 = 404;

pub const INTERNAL_SERVER_ERROR: u16 = 500;

pub const NOT_IMPLEMENTED: u16 = 501;

pub const SERVICE_UNAVAILABLE: u16 = 503;

/// The number of results where the caller names none.
pub const DEFAULT_LIMIT: usize = 10;

/// Why a request is refused.
pub struct Refusal {
    pub status: u16,
    pub message: String,
}

/// The content of a [`Refusal`].
pub struct RefusalText {
    pub status: u16,
    pub message: Seq<char>,
}

impl View for Refusal {
    type V = RefusalText;

    open spec fn view(&self) -> RefusalText {
        RefusalText { status: self.status, message: self.message@ }
    }
}

fn refuse(status: u16, message: &str) -> (r: Refusal)
    ensures
        r@ == (RefusalText { status, message: message@ }),
{
    Refusal { status, message: message.to_owned() }
}

// --- Length caps ---
/// What is wrong with the length of a text.
pub open spec fn cap_fault(name: Seq<char>, value: Option<Seq<char>>, max: nat) -> Option<Seq<char>> {
    match value {
        Some(v) => if encode_utf8(v).len() > max {
            Some(too_long(name, encode_utf8(v).len(), max))
        } else {
            None
        },
        None => None,
    }
}

/// The first of two faults.
pub open spec fn first(a: Option<Seq<char>>, b: Option<Seq<char>>) -> Option<Seq<char>> {
    match a {
        Some(m) => Some(m),
        None => b,
    }
}

/// Checks the length of a text that may be absent.
pub fn check_text_opt(name: &str, value: Option<&str>, max: usize) -> (r: Option<String>)
    ensures
        opt_view(r) == cap_fault(name@, opt_str_view(value), max as nat),
{
    match value {
        Some(v) => match check(name, v, max) {
            Ok(_) => None,
            Err(m) => Some(m),
        },
        None => None,
    }
}

fn or_check(a: Option<String>, name: &str, value: Option<&str>, max: usize) -> (r: Option<String>)
    ensures
        opt_view(r) == first(opt_view(a), cap_fault(name@, opt_str_view(value), max as nat)),
{
    match a {
        Some(m) => Some(m),
        None => check_text_opt(name, value, max),
    }
}

/// What is wrong with the resolutions that a request asks for.
pub open spec fn h3_fault(raw: Option<Seq<char>>) -> Option<Seq<char>> {
    match raw {
        Some(s) => match resolutions(s) {
            Ok(_) => None,
            Err(m) => Some(m),
        },
        None => None,
    }
}

/// The resolutions that a request asks for; none where it names none.
pub open spec fn h3_asked(raw: Option<Seq<char>>) -> Seq<u8> {
    match raw {
        Some(s) => match resolutions(s) {
            Ok(v) => v,
            Err(_) => Seq::empty(),
        },
        None => Seq::empty(),
    }
}

/// Reads the resolutions that a request asks for.
pub fn resolve_h3_res(raw: Option<&str>) -> (r: Result<Vec<u8>, Refusal>)
    ensures
        match r {
            Ok(v) => h3_fault(opt_str_view(raw)) is None && v@ == h3_asked(opt_str_view(raw)),
            Err(e) => h3_fault(opt_str_view(raw)) == Some(e.message@) && e.status == BAD_REQUEST,
        },
{
    match raw {
        None => Ok(Vec::new()),
        Some(s) => match parse_h3_res(s) {
            Ok(v) => Ok(v),
            Err(m) => Err(Refusal { status: BAD_REQUEST, message: m }),
        },
    }
}

/// The number of results: at least one, at most fifty.
pub open spec fn result_limit(limit: Option<usize>) -> int {
    match limit {
        None => 10,
        Some(n) => if n < 1 {
            1
        } else if n > 50 {
            50
        } else {
            n as int
        },
    }
}

fn limit_of(limit: Option<usize>) -> (r: usize)
    ensures
        r == result_limit(limit),
{
    match limit {
        None => DEFAULT_LIMIT,
        Some(n) => if n < 1 {
            1
        } else if n > 50 {
            50
        } else {
            n
        },
    }
}

/// A refusal for a fault in the request.
pub open spec fn bad(m: Option<Seq<char>>) -> Option<RefusalText> {
    match m {
        Some(message) => Some(RefusalText { status: BAD_REQUEST, message }),
        None => None,
    }
}

/// The first of two refusals.
pub open spec fn either(a: Option<RefusalText>, b: Option<RefusalText>) -> Option<RefusalText> {
    match a {
        Some(x) => Some(x),
        None => b,
    }
}

/// A refusal where something is not loaded.
pub open spec fn unless(loaded: bool, status: u16, message: Seq<char>) -> Option<RefusalText> {
    if loaded {
        None
    } else {
        Some(RefusalText { status, message })
    }
}

// --- Countries ---
/// Two ASCII letters in upper case, with white space around them.
pub open spec fn upper_code(s: Seq<char>) -> Option<Seq<char>> {
    let t = trim_seq(s);
    if code_of(t) is Some {
        Some(seq![upper_char(t[0]), upper_char(t[1])])
    } else {
        None
    }
}

/// Reads a country code into upper case.
pub fn parse_country_code_bytes(s: &str) -> (r: Option<[u8; 2]>)
    ensures
        match r {
            Some(cc) => upper_code(s@) == Some(code_text(cc)),
            None => upper_code(s@) is None,
        },
{
    let t = trim_chars(&chars_of(s));
    match parse_code(&t) {
        Some(_) => {
            let a: u8 = to_upper(t[0]) as u8;
            let b: u8 = to_upper(t[1]) as u8;
            let cc = [a, b];
            assert(code_text(cc) =~= seq![upper_char(t@[0]), upper_char(t@[1])]);
            Some(cc)
        },
        None => None,
    }
}

/// The country codes of a list between commas.
pub open spec fn listed_codes(s: Option<Seq<char>>) -> Seq<Seq<char>> {
    match s {
        Some(t) => nonempty(split_seq(t, ',').map_values(|p: Seq<char>| trim_seq(p))),
        None => Seq::empty(),
    }
}

/// Splits a list of country codes.
pub fn split_codes(s: Option<&str>) -> (r: Vec<String>)
    ensures
        string_views(r@) == listed_codes(opt_str_view(s)),
{
    let mut out: Vec<String> = Vec::new();
    let text = match s {
        Some(t) => t,
        None => {
            assert(string_views(out@) =~= Seq::<Seq<char>>::empty());
            return out;
        },
    };
    let pieces = split_on(&chars_of(text), ',');
    let ghost all = views(pieces@);
    let ghost want = all.map_values(|p: Seq<char>| trim_seq(p));
    let mut tidy: Vec<Vec<char>> = Vec::new();
    for i in 0..pieces.len()
        invariant
            all == views(pieces@),
            want == all.map_values(|p: Seq<char>| trim_seq(p)),
            tidy@.len() == i,
            forall|j: int| 0 <= j < i ==> (#[trigger] tidy@[j])@ == want[j],
    {
        assert(all[i as int] == pieces@[i as int]@);
        tidy.push(trim_chars(&pieces[i]));
    }
    assert(views(tidy@) =~= want);
    let kept = nonempty_pieces(tidy);
    for i in 0..kept.len()
        invariant
            out@.len() == i,
            forall|j: int| 0 <= j < i ==> (#[trigger] out@[j])@ == kept@[j]@,
    {
        out.push(string_of(&kept[i]));
    }
    assert(string_views(out@) =~= views(kept@));
    out
}

// --- Reverse ---
/// Why a reverse request is refused.
pub open spec fn reverse_fault(lang: Option<Seq<char>>, h3_res: Option<Seq<char>>) -> Option<
    RefusalText,
> {
    bad(first(cap_fault("lang"@, lang, LANG as nat), h3_fault(h3_res)))
}

/// Checks a reverse request, and reads its resolutions.
pub fn reverse_request(lang: Option<&str>, h3_res: Option<&str>) -> (r: Result<Vec<u8>, Refusal>)
    ensures
        match r {
            Ok(v) => reverse_fault(opt_str_view(lang), opt_str_view(h3_res)) is None && v@
                == h3_asked(opt_str_view(h3_res)),
            Err(e) => reverse_fault(opt_str_view(lang), opt_str_view(h3_res)) == Some(e@),
        },
{
    if let Some(m) = check_text_opt("lang", lang, LANG) {
        return Err(Refusal { status: BAD_REQUEST, message: m });
    }
    resolve_h3_res(h3_res)
}

// --- Cells ---
pub const NO_RESOLUTION: &'static str = "h3_res: at least one resolution required";

pub const NO_CELL: &'static str = "h3: no resolution produced a cell — check the coord (NaN/infinity rejected)";

/// Checks a request for cells, which must name a resolution.
pub fn h3_request(h3_res: &str) -> (r: Result<Vec<u8>, Refusal>)
    ensures
        match r {
            Ok(v) => resolutions(h3_res@) == Ok::<Seq<u8>, Seq<char>>(v@) && v@.len() > 0,
            Err(e) => e.status == BAD_REQUEST && (match resolutions(h3_res@) {
                Ok(v) => v.len() == 0 && e.message@ == NO_RESOLUTION@,
                Err(m) => e.message@ == m,
            }),
        },
{
    match parse_h3_res(h3_res) {
        Err(m) => Err(Refusal { status: BAD_REQUEST, message: m }),
        Ok(v) => if v.len() == 0 {
            Err(refuse(BAD_REQUEST, NO_RESOLUTION))
        } else {
            Ok(v)
        },
    }
}

// --- Validation ---
/// An address to be validated.
#[derive(Clone, Copy)]
pub struct ValidateParams<'a> {
    pub housenumber: Option<&'a str>,
    pub street: &'a str,
    pub city: &'a str,
    pub state: Option<&'a str>,
    pub postcode: Option<&'a str>,
    pub country_code: &'a str,
    pub h3_res: Option<&'a str>,
}

pub const VALIDATE_NOT_LOADED: &'static str = "Address validation requires the forward index. Run build-forward-index.";

/// What is wrong with the lengths of the texts of an address.
pub open spec fn validate_caps(p: ValidateParams<'_>) -> Option<Seq<char>> {
    first(
        first(
            first(
                first(
                    first(
                        cap_fault("street"@, Some(p.street@), STRUCTURED_FIELD as nat),
                        cap_fault("city"@, Some(p.city@), STRUCTURED_FIELD as nat),
                    ),
                    cap_fault("country_code"@, Some(p.country_code@), COUNTRY_CODE_LIST as nat),
                ),
                cap_fault("housenumber"@, opt_str_view(p.housenumber), HOUSENUMBER as nat),
            ),
            cap_fault("state"@, opt_str_view(p.state), STRUCTURED_FIELD as nat),
        ),
        cap_fault("postcode"@, opt_str_view(p.postcode), POSTCODE as nat),
    )
}

/// Why a request for validation is refused.
pub open spec fn validate_fault(p: ValidateParams<'_>, loaded: bool) -> Option<RefusalText> {
    either(
        bad(first(validate_caps(p), h3_fault(opt_str_view(p.h3_res)))),
        unless(loaded, NOT_IMPLEMENTED, VALIDATE_NOT_LOADED@),
    )
}

/// Checks a request for validation, and reads its resolutions. `loaded` says
/// whether there is a forward index.
pub fn validate_request(p: &ValidateParams<'_>, loaded: bool) -> (r: Result<Vec<u8>, Refusal>)
    ensures
        match r {
            Ok(v) => validate_fault(*p, loaded) is None && v@ == h3_asked(opt_str_view(p.h3_res)),
            Err(e) => validate_fault(*p, loaded) == Some(e@),
        },
{
    let a = check_text_opt("street", Some(p.street), STRUCTURED_FIELD);
    let a = or_check(a, "city", Some(p.city), STRUCTURED_FIELD);
    let a = or_check(a, "country_code", Some(p.country_code), COUNTRY_CODE_LIST);
    let a = or_check(a, "housenumber", p.housenumber, HOUSENUMBER);
    let a = or_check(a, "state", p.state, STRUCTURED_FIELD);
    let a = or_check(a, "postcode", p.postcode, POSTCODE);
    if let Some(m) = a {
        return Err(Refusal { status: BAD_REQUEST, message: m });
    }
    let h3 = match resolve_h3_res(p.h3_res) {
        Ok(v) => v,
        Err(e) => return Err(e),
    };
    if !loaded {
        return Err(refuse(NOT_IMPLEMENTED, VALIDATE_NOT_LOADED));
    }
    Ok(h3)
}

/// How many streets a validation looks at.
pub const VALIDATE_HITS: usize = 5;

/// The search that finds the street of an address.
pub open spec fn validation_search<'a>(p: ValidateParams<'a>) -> StructuredQuery<'a> {
    StructuredQuery {
        q: None,
        street: Some(p.street),
        city: Some(p.city),
        state: p.state,
        country_code: Some(p.country_code),
        kind: Some(KIND_STREET),
        limit: VALIDATE_HITS,
    }
}

/// The search that finds the street of an address.
pub fn validate_query<'a>(p: &ValidateParams<'a>) -> (r: StructuredQuery<'a>)
    ensures
        r == validation_search(*p),
{
    StructuredQuery {
        q: None,
        street: Some(p.street),
        city: Some(p.city),
        state: p.state,
        country_code: Some(p.country_code),
        kind: Some(KIND_STREET),
        limit: VALIDATE_HITS,
    }
}

/// What a validation comes to.
pub struct Verdict {
    pub verified: bool,
    pub confidence: &'static str,
}

/// Whether `r` is what a validation comes to.
pub open spec fn is_verdict(house_number_given: bool, found: bool, r: Verdict) -> bool {
    &&& r.verified == (house_number_given && found)
    &&& r.confidence@ == (if !house_number_given {
        "interpolated: street resolved, no house number to verify"@
    } else if found {
        "exact"@
    } else {
        "fallback: street found, house number not in index"@
    })
}

/// What a validation comes to, once the street was found: only a house number
/// that is in the index verifies an address.
pub fn validation_verdict(house_number_given: bool, found: bool) -> (r: Verdict)
    ensures
        is_verdict(house_number_given, found, r),
{
    if !house_number_given {
        Verdict {
            verified: false,
            confidence: "interpolated: street resolved, no house number to verify",
        }
    } else if found {
        Verdict { verified: true, confidence: "exact" }
    } else {
        Verdict {
            verified: false,
            confidence: "fallback: street found, house number not in index",
        }
    }
}

pub const STREET_NOT_FOUND: &'static str = "street not found in the requested city/state/country";

// --- Autocomplete ---
/// What was typed.
#[derive(Clone, Copy)]
pub struct AutocompleteParams<'a> {
    pub q: &'a str,
    pub country_code: Option<&'a str>,
    pub limit: Option<usize>,
    pub h3_res: Option<&'a str>,
}

/// What to suggest.
pub struct AutocompleteSetup {
    pub limit: usize,
    /// The country to suggest names of, in lower case; all where there is
    /// none.
    pub country: Option<[u8; 2]>,
    pub resolutions: Vec<u8>,
}

pub const AUTOCOMPLETE_NOT_LOADED: &'static str = "Autocomplete not built. Run build-autocomplete-fst.";

/// Why a request for suggestions is refused.
pub open spec fn autocomplete_fault(p: AutocompleteParams<'_>, loaded: bool) -> Option<RefusalText> {
    either(
        bad(
            first(
                first(
                    cap_fault("q"@, Some(p.q@), AUTOCOMPLETE_Q as nat),
                    cap_fault("country_code"@, opt_str_view(p.country_code), COUNTRY_CODE as nat),
                ),
                h3_fault(opt_str_view(p.h3_res)),
            ),
        ),
        unless(loaded, NOT_IMPLEMENTED, AUTOCOMPLETE_NOT_LOADED@),
    )
}

/// The country that a code names, in lower case.
pub open spec fn named_country(cc: Option<Seq<char>>) -> Option<Seq<char>> {
    match cc {
        Some(c) => code_of(trim_seq(c)),
        None => None,
    }
}

pub(crate) fn country_of(cc: Option<&str>) -> (r: Option<[u8; 2]>)
    ensures
        match r {
            Some(code) => named_country(opt_str_view(cc)) == Some(code_text(code)),
            None => named_country(opt_str_view(cc)) is None,
        },
{
    match cc {
        Some(c) => parse_code(&trim_chars(&chars_of(c))),
        None => None,
    }
}

/// Whether `s` is what a request for suggestions asks for.
pub open spec fn is_autocomplete_setup(p: AutocompleteParams<'_>, s: AutocompleteSetup) -> bool {
    &&& s.limit == result_limit(p.limit)
    &&& s.resolutions@ == h3_asked(opt_str_view(p.h3_res))
    &&& match s.country {
        Some(code) => named_country(opt_str_view(p.country_code)) == Some(code_text(code)),
        None => named_country(opt_str_view(p.country_code)) is None,
    }
}

/// Checks a request for suggestions.
pub fn autocomplete_request(p: &AutocompleteParams<'_>, loaded: bool) -> (r: Result<
    AutocompleteSetup,
    Refusal,
>)
    ensures
        match r {
            Ok(s) => autocomplete_fault(*p, loaded) is None && is_autocomplete_setup(*p, s),
            Err(e) => autocomplete_fault(*p, loaded) == Some(e@),
        },
{
    let a = check_text_opt("q", Some(p.q), AUTOCOMPLETE_Q);
    let a = or_check(a, "country_code", p.country_code, COUNTRY_CODE);
    if let Some(m) = a {
        return Err(Refusal { status: BAD_REQUEST, message: m });
    }
    let resolutions = match resolve_h3_res(p.h3_res) {
        Ok(v) => v,
        Err(e) => return Err(e),
    };
    if !loaded {
        return Err(refuse(NOT_IMPLEMENTED, AUTOCOMPLETE_NOT_LOADED));
    }
    Ok(
        AutocompleteSetup {
            limit: limit_of(p.limit),
            country: country_of(p.country_code),
            resolutions,
        },
    )
}

// --- Search ---
/// The point that results are to be near to.
#[derive(Clone, Copy)]
pub enum BiasInput<'a> {
    Absent,
    /// Only one of its coordinates is given.
    Half,
    /// The coordinate of this name is out of range.
    OutOfRange(&'a str),
    Given,
}

/// The bounds of coordinates and radii (binary64 bit patterns).
pub const MIN_LAT: u64 = 0xc056_8000_0000_0000;

pub const MAX_LAT: u64 = 0x4056_8000_0000_0000;

pub const MIN_LNG: u64 = 0xc066_8000_0000_0000;

pub const MAX_LNG: u64 = 0x4066_8000_0000_0000;

pub const MAX_RADIUS_KM: u64 = 0x4059_0000_0000_0000;

/// Whether a number lies between two others.
pub open spec fn between(x: u64, low: u64, high: u64) -> bool {
    le64(low, x) && le64(x, high)
}

/// Whether `r` is what two coordinates say of the point that results are to be
/// near to.
pub open spec fn is_bias(lat: Option<u64>, lng: Option<u64>, r: BiasInput<'_>) -> bool {
    match (lat, lng) {
        (None, None) => r is Absent,
        (Some(y), Some(x)) => if !between(y, MIN_LAT, MAX_LAT) {
            r matches BiasInput::OutOfRange(name) && name@ == "bias_lat"@
        } else if !between(x, MIN_LNG, MAX_LNG) {
            r matches BiasInput::OutOfRange(name) && name@ == "bias_lng"@
        } else {
            r is Given
        },
        _ => r is Half,
    }
}

/// Reads the point that results are to be near to. The coordinates are bit
/// patterns (binary64).
pub fn bias_input(lat: Option<u64>, lng: Option<u64>) -> (r: BiasInput<'static>)
    ensures
        is_bias(lat, lng, r),
{
    match (lat, lng) {
        (None, None) => BiasInput::Absent,
        (Some(y), Some(x)) => {
            if !(at_most64(MIN_LAT, y) && at_most64(y, MAX_LAT)) {
                BiasInput::OutOfRange("bias_lat")
            } else if !(at_most64(MIN_LNG, x) && at_most64(x, MAX_LNG)) {
                BiasInput::OutOfRange("bias_lng")
            } else {
                BiasInput::Given
            }
        },
        _ => BiasInput::Half,
    }
}

/// What is searched for.
#[derive(Clone, Copy)]
pub struct SearchParams<'a> {
    pub q: Option<&'a str>,
    pub street: Option<&'a str>,
    pub housenumber: Option<&'a str>,
    pub city: Option<&'a str>,
    pub state: Option<&'a str>,
    pub country_code: Option<&'a str>,
    pub kind: Option<&'a str>,
    pub limit: Option<usize>,
    pub h3_res: Option<&'a str>,
    pub bias: BiasInput<'a>,
}

/// How to search.
pub struct SearchSetup {
    pub kind: Option<u64>,
    pub limit: usize,
    /// The countries to search in, one after the other; everywhere where there
    /// is none.
    pub countries: Vec<String>,
    /// The house number to refine the results with.
    pub housenumber: Option<String>,
    /// Whether an exact name may answer the query at once.
    pub fast_path: bool,
    pub resolutions: Vec<u8>,
}

pub const SEARCH_NOT_LOADED: &'static str = "Forward geocoding index not loaded; run `build-forward-index <data>/index` to enable /search";

/// What is wrong with the lengths of the texts of a search.
pub open spec fn search_caps(
    q: Option<Seq<char>>,
    street: Option<Seq<char>>,
    housenumber: Option<Seq<char>>,
    city: Option<Seq<char>>,
    state: Option<Seq<char>>,
    country_code: Option<Seq<char>>,
) -> Option<Seq<char>> {
    first(
        first(
            first(
                first(
                    first(
                        cap_fault("q"@, q, SEARCH_Q as nat),
                        cap_fault("street"@, street, STRUCTURED_FIELD as nat),
                    ),
                    cap_fault("housenumber"@, housenumber, HOUSENUMBER as nat),
                ),
                cap_fault("city"@, city, STRUCTURED_FIELD as nat),
            ),
            cap_fault("state"@, state, STRUCTURED_FIELD as nat),
        ),
        cap_fault("country_code"@, country_code, COUNTRY_CODE_LIST as nat),
    )
}

/// Checks the lengths of the texts of a search.
pub fn check_search_caps(
    q: Option<&str>,
    street: Option<&str>,
    housenumber: Option<&str>,
    city: Option<&str>,
    state: Option<&str>,
    country_code: Option<&str>,
) -> (r: Option<String>)
    ensures
        opt_view(r) == search_caps(
            opt_str_view(q),
            opt_str_view(street),
            opt_str_view(housenumber),
            opt_str_view(city),
            opt_str_view(state),
            opt_str_view(country_code),
        ),
{
    let a = check_text_opt("q", q, SEARCH_Q);
    let a = or_check(a, "street", street, STRUCTURED_FIELD);
    let a = or_check(a, "housenumber", housenumber, HOUSENUMBER);
    let a = or_check(a, "city", city, STRUCTURED_FIELD);
    let a = or_check(a, "state", state, STRUCTURED_FIELD);
    or_check(a, "country_code", country_code, COUNTRY_CODE_LIST)
}

/// What is wrong with the point that results are to be near to.
pub open spec fn bias_fault(b: BiasInput<'_>) -> Option<Seq<char>> {
    match b {
        BiasInput::Half => Some("bias_lat and bias_lng must be supplied together"@),
        BiasInput::OutOfRange(field) => Some(
            field@ + ": out of range (lat ∈ [-90,90], lng ∈ [-180,180])"@,
        ),
        _ => None,
    }
}

/// What is wrong with the kind that a search names.
pub open spec fn kind_fault(kind: Option<Seq<char>>) -> Option<Seq<char>> {
    match kind {
        Some(k) => if k == "place"@ || k == "street"@ {
            None
        } else {
            Some("invalid kind "@ + debug_text(k) + "; expected 'place' or 'street'"@)
        },
        None => None,
    }
}

/// The kind that a search names.
pub open spec fn kind_named(kind: Option<Seq<char>>) -> Option<u64> {
    match kind {
        Some(k) => if k == "place"@ {
            Some(KIND_PLACE)
        } else if k == "street"@ {
            Some(KIND_STREET)
        } else {
            None
        },
        None => None,
    }
}

/// Why a search is refused.
pub open spec fn search_fault(p: SearchParams<'_>, loaded: bool) -> Option<RefusalText> {
    either(
        either(
            bad(
                first(
                    first(
                        search_caps(
                            opt_str_view(p.q),
                            opt_str_view(p.street),
                            opt_str_view(p.housenumber),
                            opt_str_view(p.city),
                            opt_str_view(p.state),
                            opt_str_view(p.country_code),
                        ),
                        bias_fault(p.bias),
                    ),
                    h3_fault(opt_str_view(p.h3_res)),
                ),
            ),
            unless(loaded, NOT_IMPLEMENTED, SEARCH_NOT_LOADED@),
        ),
        bad(kind_fault(opt_str_view(p.kind))),
    )
}

/// The house number of a free-form text.
pub open spec fn house_number_in(q: Option<Seq<char>>) -> Option<Seq<char>> {
    match q {
        Some(text) => with_role(tokens(text), Role::HouseNumber, tokens(text).len() as int),
        None => None,
    }
}

/// Whether an exact name may answer a search at once: free-form text alone,
/// for one result, in at most one country, and nowhere near in particular.
pub open spec fn is_fast(p: SearchParams<'_>) -> bool {
    &&& p.street is None
    &&& p.city is None
    &&& p.state is None
    &&& listed_codes(opt_str_view(p.country_code)).len() <= 1
    &&& result_limit(p.limit) == 1
    &&& !(p.bias is Given)
    &&& p.q is Some && trim_seq(p.q->0@).len() > 0
}

fn check_bias(b: &BiasInput<'_>) -> (r: Option<String>)
    ensures
        opt_view(r) == bias_fault(*b),
{
    match b {
        BiasInput::Half => Some("bias_lat and bias_lng must be supplied together".to_owned()),
        BiasInput::OutOfRange(field) => {
            let mut m = chars_of(field);
            append_str(&mut m, ": out of range (lat ∈ [-90,90], lng ∈ [-180,180])");
            Some(string_of(&m))
        },
        _ => None,
    }
}

fn read_kind(kind: Option<&str>) -> (r: Result<Option<u64>, String>)
    ensures
        match r {
            Ok(k) => kind_fault(opt_str_view(kind)) is None && k == kind_named(opt_str_view(kind)),
            Err(m) => kind_fault(opt_str_view(kind)) == Some(m@),
        },
{
    match kind {
        None => Ok(None),
        Some(k) => {
            if str_eq(k, "place") {
                Ok(Some(KIND_PLACE))
            } else if str_eq(k, "street") {
                Ok(Some(KIND_STREET))
            } else {
                let mut m: Vec<char> = Vec::new();
                append_str(&mut m, "invalid kind ");
                append_str(&mut m, debug_string(k).as_str());
                append_str(&mut m, "; expected 'place' or 'street'");
                assert(m@ =~= "invalid kind "@ + debug_text(k@)
                    + "; expected 'place' or 'street'"@);
                Err(string_of(&m))
            }
        },
    }
}

/// Whether `s` is how a search is to be run.
pub open spec fn is_search_setup(p: SearchParams<'_>, s: SearchSetup) -> bool {
    &&& s.kind == kind_named(opt_str_view(p.kind))
    &&& s.limit == result_limit(p.limit)
    &&& string_views(s.countries@) == listed_codes(opt_str_view(p.country_code))
    &&& opt_view(s.housenumber) == first(
        opt_str_view(p.housenumber),
        house_number_in(opt_str_view(p.q)),
    )
    &&& s.fast_path == is_fast(p)
    &&& s.resolutions@ == h3_asked(opt_str_view(p.h3_res))
}

/// Checks a search. `loaded` says whether there is a forward index.
pub fn search_request(p: &SearchParams<'_>, loaded: bool) -> (r: Result<SearchSetup, Refusal>)
    ensures
        match r {
            Ok(s) => search_fault(*p, loaded) is None && is_search_setup(*p, s),
            Err(e) => search_fault(*p, loaded) == Some(e@),
        },
{
    if let Some(m) = check_search_caps(
        p.q,
        p.street,
        p.housenumber,
        p.city,
        p.state,
        p.country_code,
    ) {
        return Err(Refusal { status: BAD_REQUEST, message: m });
    }
    if let Some(m) = check_bias(&p.bias) {
        return Err(Refusal { status: BAD_REQUEST, message: m });
    }
    let resolutions = match resolve_h3_res(p.h3_res) {
        Ok(v) => v,
        Err(e) => return Err(e),
    };
    if !loaded {
        return Err(refuse(NOT_IMPLEMENTED, SEARCH_NOT_LOADED));
    }
    let kind = match read_kind(p.kind) {
        Ok(k) => k,
        Err(m) => return Err(Refusal { status: BAD_REQUEST, message: m }),
    };
    let housenumber = match p.housenumber {
        Some(h) => Some(h.to_owned()),
        None => match p.q {
            Some(text) => parse_freeform_query(text).house_number,
            None => None,
        },
    };
    let limit = limit_of(p.limit);
    let countries = split_codes(p.country_code);
    assert(string_views(countries@).len() == countries@.len());
    let given = match p.bias {
        BiasInput::Given => true,
        _ => false,
    };
    let typed = match p.q {
        Some(text) => trim_chars(&chars_of(text)).len() > 0,
        None => false,
    };
    let fast_path = p.street.is_none() && p.city.is_none() && p.state.is_none() && countries.len()
        <= 1 && limit == 1 && !given && typed;
    Ok(SearchSetup { kind, limit, countries, housenumber, fast_path, resolutions })
}

/// Whether a suggestion has the kind that a search names.
pub fn kind_matches(wanted: Option<u64>, kind: u8) -> (r: bool)
    ensures
        r == (wanted is None || wanted == Some(kind as u64)),
{
    match wanted {
        Some(k) => k == kind as u64,
        None => true,
    }
}

/// The search in one country.
pub open spec fn search_in<'a>(p: SearchParams<'a>, setup: SearchSetup, cc: Option<&'a str>) -> StructuredQuery<
    'a,
> {
    StructuredQuery {
        q: p.q,
        street: p.street,
        city: p.city,
        state: p.state,
        country_code: cc,
        kind: setup.kind,
        limit: setup.limit,
    }
}

/// The search in one country.
pub fn country_query<'a>(p: &SearchParams<'a>, setup: &SearchSetup, cc: Option<&'a str>) -> (r:
    StructuredQuery<'a>)
    ensures
        r == search_in(*p, *setup, cc),
{
    StructuredQuery {
        q: p.q,
        street: p.street,
        city: p.city,
        state: p.state,
        country_code: cc,
        kind: setup.kind,
        limit: setup.limit,
    }
}

// --- Nearby ---
pub const KIND_POI: u64 = 3;

/// What is near.
#[derive(Clone, Copy)]
pub struct NearbyParams<'a> {
    pub q: Option<&'a str>,
    pub kind: Option<&'a str>,
    pub country_code: Option<&'a str>,
    pub limit: Option<usize>,
    pub h3_res: Option<&'a str>,
    /// Which of `lat`, `lng` and `radius_km` is out of range.
    pub out_of_range: Option<&'a str>,
}

/// Which of the numbers of a request for what is near is out of range.
pub open spec fn out_of_range(lat: u64, lng: u64, radius_km: u64) -> Option<Seq<char>> {
    if !between(lat, MIN_LAT, MAX_LAT) {
        Some("lat"@)
    } else if !between(lng, MIN_LNG, MAX_LNG) {
        Some("lng"@)
    } else if !(lt64(0, radius_km) && le64(radius_km, MAX_RADIUS_KM)) {
        Some("radius_km"@)
    } else {
        None
    }
}

/// Which of the numbers of a request for what is near is out of range: the
/// radius must be positive. They are bit patterns (binary64).
pub fn nearby_out_of_range(lat: u64, lng: u64, radius_km: u64) -> (r: Option<&'static str>)
    ensures
        opt_str_view(r) == out_of_range(lat, lng, radius_km),
{
    if !(at_most64(MIN_LAT, lat) && at_most64(lat, MAX_LAT)) {
        Some("lat")
    } else if !(at_most64(MIN_LNG, lng) && at_most64(lng, MAX_LNG)) {
        Some("lng")
    } else if !(less64(0, radius_km) && at_most64(radius_km, MAX_RADIUS_KM)) {
        Some("radius_km")
    } else {
        None
    }
}

/// How to look for what is near.
pub struct NearbySetup {
    pub kind: Option<u64>,
    pub limit: usize,
    pub resolutions: Vec<u8>,
}

pub const NEARBY_NOT_LOADED: &'static str = "Forward geocoding index not loaded; run `build-forward-index <data>/index` to enable /nearby";

/// What is wrong with the kind that is named.
pub open spec fn nearby_kind_fault(kind: Option<Seq<char>>) -> Option<Seq<char>> {
    match kind {
        Some(k) => if k == "place"@ || k == "street"@ || k == "poi"@ {
            None
        } else {
            Some("invalid kind "@ + debug_text(k) + "; expected 'place', 'street', or 'poi'"@)
        },
        None => None,
    }
}

/// The kind that is named.
pub open spec fn nearby_kind(kind: Option<Seq<char>>) -> Option<u64> {
    match kind {
        Some(k) => if k == "place"@ {
            Some(KIND_PLACE)
        } else if k == "street"@ {
            Some(KIND_STREET)
        } else if k == "poi"@ {
            Some(KIND_POI)
        } else {
            None
        },
        None => None,
    }
}

/// What is said of a number that is out of range.
pub open spec fn range_fault(field: Option<Seq<char>>) -> Option<Seq<char>> {
    match field {
        Some(f) => if f == "lat"@ {
            Some("lat: out of range (must be finite, in [-90, 90])"@)
        } else if f == "lng"@ {
            Some("lng: out of range (must be finite, in [-180, 180])"@)
        } else if f == "radius_km"@ {
            Some("radius_km: must be finite, > 0, ≤ 100"@)
        } else {
            Some(f)
        },
        None => None,
    }
}

/// Why a request for what is near is refused.
pub open spec fn nearby_fault(p: NearbyParams<'_>, loaded: bool) -> Option<RefusalText> {
    either(
        either(
            bad(
                first(
                    first(
                        cap_fault("q"@, opt_str_view(p.q), SEARCH_Q as nat),
                        cap_fault(
                            "country_code"@,
                            opt_str_view(p.country_code),
                            COUNTRY_CODE_LIST as nat,
                        ),
                    ),
                    h3_fault(opt_str_view(p.h3_res)),
                ),
            ),
            unless(loaded, NOT_IMPLEMENTED, NEARBY_NOT_LOADED@),
        ),
        bad(
            first(
                nearby_kind_fault(opt_str_view(p.kind)),
                range_fault(opt_str_view(p.out_of_range)),
            ),
        ),
    )
}

fn read_nearby_kind(kind: Option<&str>) -> (r: Result<Option<u64>, String>)
    ensures
        match r {
            Ok(k) => nearby_kind_fault(opt_str_view(kind)) is None && k == nearby_kind(
                opt_str_view(kind),
            ),
            Err(m) => nearby_kind_fault(opt_str_view(kind)) == Some(m@),
        },
{
    match kind {
        None => Ok(None),
        Some(k) => {
            if str_eq(k, "place") {
                Ok(Some(KIND_PLACE))
            } else if str_eq(k, "street") {
                Ok(Some(KIND_STREET))
            } else if str_eq(k, "poi") {
                Ok(Some(KIND_POI))
            } else {
                let mut m: Vec<char> = Vec::new();
                append_str(&mut m, "invalid kind ");
                append_str(&mut m, debug_string(k).as_str());
                append_str(&mut m, "; expected 'place', 'street', or 'poi'");
                assert(m@ =~= "invalid kind "@ + debug_text(k@)
                    + "; expected 'place', 'street', or 'poi'"@);
                Err(string_of(&m))
            }
        },
    }
}

/// Whether `s` is how to look for what is near.
pub open spec fn is_nearby_setup(p: NearbyParams<'_>, s: NearbySetup) -> bool {
    &&& s.kind == nearby_kind(opt_str_view(p.kind))
    &&& s.limit == result_limit(p.limit)
    &&& s.resolutions@ == h3_asked(opt_str_view(p.h3_res))
}

/// Checks a request for what is near.
pub fn nearby_request(p: &NearbyParams<'_>, loaded: bool) -> (r: Result<NearbySetup, Refusal>)
    ensures
        match r {
            Ok(s) => nearby_fault(*p, loaded) is None && is_nearby_setup(*p, s),
            Err(e) => nearby_fault(*p, loaded) == Some(e@),
        },
{
    let a = check_text_opt("q", p.q, SEARCH_Q);
    if let Some(m) = or_check(a, "country_code", p.country_code, COUNTRY_CODE_LIST) {
        return Err(Refusal { status: BAD_REQUEST, message: m });
    }
    let resolutions = match resolve_h3_res(p.h3_res) {
        Ok(v) => v,
        Err(e) => return Err(e),
    };
    if !loaded {
        return Err(refuse(NOT_IMPLEMENTED, NEARBY_NOT_LOADED));
    }
    let kind = match read_nearby_kind(p.kind) {
        Ok(k) => k,
        Err(m) => return Err(Refusal { status: BAD_REQUEST, message: m }),
    };
    match p.out_of_range {
        None => Ok(NearbySetup { kind, limit: limit_of(p.limit), resolutions }),
        Some(f) => {
            let detail = if str_eq(f, "lat") {
                "lat: out of range (must be finite, in [-90, 90])"
            } else if str_eq(f, "lng") {
                "lng: out of range (must be finite, in [-180, 180])"
            } else if str_eq(f, "radius_km") {
                "radius_km: must be finite, > 0, ≤ 100"
            } else {
                f
            };
            Err(refuse(BAD_REQUEST, detail))
        },
    }
}

// --- Network addresses ---
pub const IP_NOT_LOADED: &'static str = "IP geocoding not enabled. Put GeoLite2-City.mmdb under the data dir or set GEOLITE2_DB.";

/// What is said of a text that is no network address.
pub open spec fn invalid_ip(ip: Seq<char>) -> Seq<char> {
    "invalid ip "@ + debug_text(ip)
}

/// Why a request for a network address is refused. `parses` says whether the
/// address that is given is one, `loaded` whether there is a database.
pub open spec fn ip_fault(
    ip: Option<Seq<char>>,
    h3_res: Option<Seq<char>>,
    parses: bool,
    loaded: bool,
) -> Option<RefusalText> {
    either(
        bad(
            first(
                first(cap_fault("ip"@, ip, IP as nat), h3_fault(h3_res)),
                if ip is Some && !parses {
                    Some(invalid_ip(ip->0))
                } else {
                    None
                },
            ),
        ),
        unless(loaded, SERVICE_UNAVAILABLE, IP_NOT_LOADED@),
    )
}

/// Checks a request for a network address, and reads its resolutions.
pub fn ip_request(ip: Option<&str>, h3_res: Option<&str>, parses: bool, loaded: bool) -> (r: Result<
    Vec<u8>,
    Refusal,
>)
    ensures
        match r {
            Ok(v) => ip_fault(opt_str_view(ip), opt_str_view(h3_res), parses, loaded) is None && v@
                == h3_asked(opt_str_view(h3_res)),
            Err(e) => ip_fault(opt_str_view(ip), opt_str_view(h3_res), parses, loaded) == Some(e@),
        },
{
    if let Some(m) = check_text_opt("ip", ip, IP) {
        return Err(Refusal { status: BAD_REQUEST, message: m });
    }
    let resolutions = match resolve_h3_res(h3_res) {
        Ok(v) => v,
        Err(e) => return Err(e),
    };
    if let Some(text) = ip {
        if !parses {
            let mut m: Vec<char> = Vec::new();
            append_str(&mut m, "invalid ip ");
            append_str(&mut m, debug_string(text).as_str());
            assert(m@ =~= invalid_ip(text@));
            return Err(Refusal { status: BAD_REQUEST, message: string_of(&m) });
        }
    }
    if !loaded {
        return Err(refuse(SERVICE_UNAVAILABLE, IP_NOT_LOADED));
    }
    Ok(resolutions)
}

/// What is said of a network address that the database does not have.
pub fn ip_not_found(ip: &str) -> (r: Refusal)
    ensures
        r@ == (RefusalText { status: NOT_FOUND, message: "no location for ip "@ + ip@ }),
{
    let mut m: Vec<char> = Vec::new();
    append_str(&mut m, "no location for ip ");
    append_str(&mut m, ip);
    assert(m@ =~= "no location for ip "@ + ip@);
    Refusal { status: NOT_FOUND, message: string_of(&m) }
}

/// What is said of a search that failed.
pub fn search_failed(what: &str, error: &str) -> (r: Refusal)
    ensures
        r@ == (RefusalText {
            status: INTERNAL_SERVER_ERROR,
            message: what@ + " failed: "@ + error@,
        }),
{
    let mut m: Vec<char> = Vec::new();
    append_str(&mut m, what);
    append_str(&mut m, " failed: ");
    append_str(&mut m, error);
    assert(m@ =~= what@ + " failed: "@ + error@);
    Refusal { status: INTERNAL_SERVER_ERROR, message: string_of(&m) }
}

} // verus!
