//! What a remote procedure call asks for, why it is refused, and the messages
//! that answer it.
//!
//! A message has no absent texts: what is absent is empty.
use vstd::prelude::*;
use crate::address::{AddressDetails, Confidence, EXACT, FALLBACK, INTERPOLATED};
use crate::forward::parse_freeform_query;
use crate::forward_search::{StructuredQuery, KIND_PLACE, KIND_STREET};
use crate::h3_cell::{debug_string, debug_text, listed_resolutions, validate_h3_res};
use crate::limits::{
    AUTOCOMPLETE_Q, COUNTRY_CODE, COUNTRY_CODE_LIST, HOUSENUMBER, IP, LANG, POSTCODE,
    STRUCTURED_FIELD,
};
use crate::openaddresses::code_text;
use crate::query::Address;
use crate::requests::{
    cap_fault, check_search_caps, check_text_opt, country_of, first, house_number_in, invalid_ip,
    named_country, parse_country_code_bytes, search_caps, upper_code, NO_CELL, NO_RESOLUTION,
    VALIDATE_HITS,
};
use crate::text::{append_str, opt_str_view, opt_view, str_eq, string_of};

verus! {

broadcast use vstd::seq::group_seq_axioms;

/// The class of a refusal.
#[derive(Clone, Copy, Debug, PartialEq, Eq, Structural)]
pub enum RpcCode {
    InvalidArgument,
    Unimplemented,
    Unavailable,
    NotFound,
    Internal,
}

/// Why a call is refused.
pub struct RpcRefusal {
    pub code: RpcCode,
    pub message: String,
}

/// The content of an [`RpcRefusal`].
pub struct RpcText {
    pub code: RpcCode,
    pub message: Seq<char>,
}

impl View for RpcRefusal {
    type V = RpcText;

    open spec fn view(&self) -> RpcText {
        RpcText { code: self.code, message: self.message@ }
    }
}

fn refuse(code: RpcCode, message: &str) -> (r: RpcRefusal)
    ensures
        r@ == (RpcText { code, message: message@ }),
{
    RpcRefusal { code, message: message.to_owned() }
}

/// A refusal for a fault in the call.
pub open spec fn invalid(m: Option<Seq<char>>) -> Option<RpcText> {
    match m {
        Some(message) => Some(RpcText { code: RpcCode::InvalidArgument, message }),
        None => None,
    }
}

/// The first of two refusals.
pub open spec fn either(a: Option<RpcText>, b: Option<RpcText>) -> Option<RpcText> {
    match a {
        Some(x) => Some(x),
        None => b,
    }
}

/// A refusal where something is not loaded.
pub open spec fn unless(loaded: bool, code: RpcCode, message: Seq<char>) -> Option<RpcText> {
    if loaded {
        None
    } else {
        Some(RpcText { code, message })
    }
}

/// What is wrong with a list of resolutions.
pub open spec fn list_fault(raw: Seq<u32>) -> Option<Seq<char>> {
    match listed_resolutions(raw) {
        Ok(_) => None,
        Err(m) => Some(m),
    }
}

/// A text, where it is not empty.
pub open spec fn some_if_any(s: Seq<char>) -> Option<Seq<char>> {
    if s.len() == 0 {
        None
    } else {
        Some(s)
    }
}

/// A text, where it is not empty.
pub fn empty_to_none(s: &str) -> (r: Option<&str>)
    ensures
        opt_str_view(r) == some_if_any(s@),
        r is Some ==> r->0 == s,
{
    if s.is_empty() {
        None
    } else {
        Some(s)
    }
}

/// The number of results: ten where none is named, at most fifty.
pub open spec fn rpc_limit(limit: u32) -> int {
    if limit == 0 {
        10
    } else if limit > 50 {
        50
    } else {
        limit as int
    }
}

fn limit_of(limit: u32) -> (r: usize)
    ensures
        r == rpc_limit(limit),
{
    if limit == 0 {
        10
    } else if limit > 50 {
        50
    } else {
        limit as usize
    }
}

// --- Reverse ---
/// Checks a reverse call, and reads its resolutions.
pub fn reverse_call(lang: &str, h3_res: &[u32]) -> (r: Result<Vec<u8>, RpcRefusal>)
    ensures
        ({
            let fault = invalid(
                first(cap_fault("lang"@, Some(lang@), LANG as nat), list_fault(h3_res@)),
            );
            match r {
                Ok(v) => fault is None && listed_resolutions(h3_res@) == Ok::<
                    Seq<u8>,
                    Seq<char>,
                >(v@),
                Err(e) => fault == Some(e@),
            }
        }),
{
    if let Some(m) = check_text_opt("lang", Some(lang), LANG) {
        return Err(RpcRefusal { code: RpcCode::InvalidArgument, message: m });
    }
    resolutions_of(h3_res)
}

fn resolutions_of(h3_res: &[u32]) -> (r: Result<Vec<u8>, RpcRefusal>)
    ensures
        match r {
            Ok(v) => list_fault(h3_res@) is None && listed_resolutions(h3_res@) == Ok::<
                Seq<u8>,
                Seq<char>,
            >(v@),
            Err(e) => invalid(list_fault(h3_res@)) == Some(e@),
        },
{
    match validate_h3_res(h3_res) {
        Ok(v) => Ok(v),
        Err(m) => Err(RpcRefusal { code: RpcCode::InvalidArgument, message: m }),
    }
}

// --- Cells ---
/// Checks a call for cells, which must name a resolution.
pub fn h3_call(h3_res: &[u32]) -> (r: Result<Vec<u8>, RpcRefusal>)
    ensures
        ({
            let fault = invalid(
                first(
                    list_fault(h3_res@),
                    if h3_res@.len() == 0 {
                        Some(NO_RESOLUTION@)
                    } else {
                        None
                    },
                ),
            );
            match r {
                Ok(v) => fault is None && listed_resolutions(h3_res@) == Ok::<
                    Seq<u8>,
                    Seq<char>,
                >(v@),
                Err(e) => fault == Some(e@),
            }
        }),
{
    let v = match resolutions_of(h3_res) {
        Ok(v) => v,
        Err(e) => return Err(e),
    };
    if h3_res.len() == 0 {
        return Err(refuse(RpcCode::InvalidArgument, NO_RESOLUTION));
    }
    Ok(v)
}

/// What is said where no resolution has a cell.
pub fn no_cell() -> (r: RpcRefusal)
    ensures
        r@ == (RpcText { code: RpcCode::InvalidArgument, message: NO_CELL@ }),
{
    refuse(RpcCode::InvalidArgument, NO_CELL)
}

// --- Search ---
/// What is searched for.
#[derive(Clone, Copy)]
pub struct SearchCall<'a> {
    pub q: &'a str,
    pub street: &'a str,
    pub housenumber: &'a str,
    pub city: &'a str,
    pub state: &'a str,
    pub country_code: &'a str,
    pub kind: &'a str,
    pub limit: u32,
    pub h3_res: &'a [u32],
}

/// How to search.
pub struct SearchCallSetup<'a> {
    pub query: StructuredQuery<'a>,
    /// The house number to refine the results with.
    pub housenumber: Option<String>,
    /// The country of the results, in upper case.
    pub country: Option<[u8; 2]>,
    pub resolutions: Vec<u8>,
}

pub const FORWARD_NOT_BUILT: &'static str = "forward index not built";

/// What is wrong with the kind that a search names.
pub open spec fn call_kind_fault(kind: Seq<char>) -> Option<Seq<char>> {
    if kind == "place"@ || kind == "street"@ || kind.len() == 0 {
        None
    } else {
        Some("invalid kind "@ + debug_text(kind) + "; expected 'place' or 'street'"@)
    }
}

/// The kind that a search names.
pub open spec fn call_kind(kind: Seq<char>) -> Option<u64> {
    if kind == "place"@ {
        Some(KIND_PLACE)
    } else if kind == "street"@ {
        Some(KIND_STREET)
    } else {
        None
    }
}

/// Why a search is refused.
pub open spec fn search_call_fault(c: SearchCall<'_>, loaded: bool) -> Option<RpcText> {
    either(
        either(
            invalid(
                first(
                    search_caps(
                        Some(c.q@),
                        Some(c.street@),
                        Some(c.housenumber@),
                        Some(c.city@),
                        Some(c.state@),
                        Some(c.country_code@),
                    ),
                    list_fault(c.h3_res@),
                ),
            ),
            unless(loaded, RpcCode::Unimplemented, FORWARD_NOT_BUILT@),
        ),
        invalid(call_kind_fault(c.kind@)),
    )
}

fn read_kind(kind: &str) -> (r: Result<Option<u64>, String>)
    ensures
        match r {
            Ok(k) => call_kind_fault(kind@) is None && k == call_kind(kind@),
            Err(m) => call_kind_fault(kind@) == Some(m@),
        },
{
    proof {
        reveal_strlit("place");
        reveal_strlit("street");
    }
    if str_eq(kind, "place") {
        Ok(Some(KIND_PLACE))
    } else if str_eq(kind, "street") {
        Ok(Some(KIND_STREET))
    } else if kind.is_empty() {
        Ok(None)
    } else {
        let mut m: Vec<char> = Vec::new();
        append_str(&mut m, "invalid kind ");
        append_str(&mut m, debug_string(kind).as_str());
        append_str(&mut m, "; expected 'place' or 'street'");
        assert(m@ =~= "invalid kind "@ + debug_text(kind@) + "; expected 'place' or 'street'"@);
        Err(string_of(&m))
    }
}

/// Reads a country code into upper case.
pub fn parse_cc(s: &str) -> (r: Option<[u8; 2]>)
    ensures
        match r {
            Some(cc) => upper_code(s@) == Some(code_text(cc)),
            None => upper_code(s@) is None,
        },
{
    parse_country_code_bytes(s)
}

/// Whether `s` is how a search is to be run.
pub open spec fn is_search_call_setup(c: SearchCall<'_>, s: SearchCallSetup<'_>) -> bool {
    &&& opt_str_view(s.query.q) == some_if_any(c.q@)
    &&& opt_str_view(s.query.street) == some_if_any(c.street@)
    &&& opt_str_view(s.query.city) == some_if_any(c.city@)
    &&& opt_str_view(s.query.state) == some_if_any(c.state@)
    &&& opt_str_view(s.query.country_code) == some_if_any(c.country_code@)
    &&& s.query.kind == call_kind(c.kind@)
    &&& s.query.limit == rpc_limit(c.limit)
    &&& opt_view(s.housenumber) == first(
        some_if_any(c.housenumber@),
        house_number_in(Some(c.q@)),
    )
    &&& match s.country {
        Some(cc) => upper_code(c.country_code@) == Some(code_text(cc)),
        None => upper_code(c.country_code@) is None,
    }
    &&& listed_resolutions(c.h3_res@) == Ok::<Seq<u8>, Seq<char>>(s.resolutions@)
}

/// Checks a search.
pub fn search_call<'a>(c: &SearchCall<'a>, loaded: bool) -> (r: Result<
    SearchCallSetup<'a>,
    RpcRefusal,
>)
    ensures
        match r {
            Ok(s) => search_call_fault(*c, loaded) is None && is_search_call_setup(*c, s),
            Err(e) => search_call_fault(*c, loaded) == Some(e@),
        },
{
    if let Some(m) = check_search_caps(
        Some(c.q),
        Some(c.street),
        Some(c.housenumber),
        Some(c.city),
        Some(c.state),
        Some(c.country_code),
    ) {
        return Err(RpcRefusal { code: RpcCode::InvalidArgument, message: m });
    }
    let resolutions = match resolutions_of(c.h3_res) {
        Ok(v) => v,
        Err(e) => return Err(e),
    };
    if !loaded {
        return Err(refuse(RpcCode::Unimplemented, FORWARD_NOT_BUILT));
    }
    let kind = match read_kind(c.kind) {
        Ok(k) => k,
        Err(m) => return Err(RpcRefusal { code: RpcCode::InvalidArgument, message: m }),
    };
    let housenumber = if c.housenumber.is_empty() {
        parse_freeform_query(c.q).house_number
    } else {
        Some(c.housenumber.to_owned())
    };
    let query = StructuredQuery {
        q: empty_to_none(c.q),
        street: empty_to_none(c.street),
        city: empty_to_none(c.city),
        state: empty_to_none(c.state),
        country_code: empty_to_none(c.country_code),
        kind,
        limit: limit_of(c.limit),
    };
    Ok(SearchCallSetup { query, housenumber, country: parse_cc(c.country_code), resolutions })
}

// --- Validation ---
/// An address to be validated.
#[derive(Clone, Copy)]
pub struct ValidateCall<'a> {
    pub housenumber: &'a str,
    pub street: &'a str,
    pub city: &'a str,
    pub state: &'a str,
    pub postcode: &'a str,
    pub country_code: &'a str,
    pub h3_res: &'a [u32],
}

pub const REQUIRED: &'static str = "street, city, country_code are required";

/// What is wrong with the lengths of the texts of an address.
pub open spec fn validate_call_caps(c: ValidateCall<'_>) -> Option<Seq<char>> {
    first(
        first(
            first(
                first(
                    first(
                        cap_fault("housenumber"@, Some(c.housenumber@), HOUSENUMBER as nat),
                        cap_fault("street"@, Some(c.street@), STRUCTURED_FIELD as nat),
                    ),
                    cap_fault("city"@, Some(c.city@), STRUCTURED_FIELD as nat),
                ),
                cap_fault("state"@, Some(c.state@), STRUCTURED_FIELD as nat),
            ),
            cap_fault("postcode"@, Some(c.postcode@), POSTCODE as nat),
        ),
        cap_fault("country_code"@, Some(c.country_code@), COUNTRY_CODE_LIST as nat),
    )
}

/// Why a validation is refused.
pub open spec fn validate_call_fault(c: ValidateCall<'_>, loaded: bool) -> Option<RpcText> {
    either(
        either(
            invalid(first(validate_call_caps(c), list_fault(c.h3_res@))),
            unless(loaded, RpcCode::Unimplemented, FORWARD_NOT_BUILT@),
        ),
        invalid(
            if c.street@.len() == 0 || c.city@.len() == 0 || c.country_code@.len() == 0 {
                Some(REQUIRED@)
            } else {
                None
            },
        ),
    )
}

/// Checks a validation, and reads its resolutions.
pub fn validate_call(c: &ValidateCall<'_>, loaded: bool) -> (r: Result<Vec<u8>, RpcRefusal>)
    ensures
        match r {
            Ok(v) => validate_call_fault(*c, loaded) is None && listed_resolutions(c.h3_res@)
                == Ok::<Seq<u8>, Seq<char>>(v@),
            Err(e) => validate_call_fault(*c, loaded) == Some(e@),
        },
{
    let a = check_text_opt("housenumber", Some(c.housenumber), HOUSENUMBER);
    let a = next_check(a, "street", c.street, STRUCTURED_FIELD);
    let a = next_check(a, "city", c.city, STRUCTURED_FIELD);
    let a = next_check(a, "state", c.state, STRUCTURED_FIELD);
    let a = next_check(a, "postcode", c.postcode, POSTCODE);
    let a = next_check(a, "country_code", c.country_code, COUNTRY_CODE_LIST);
    if let Some(m) = a {
        return Err(RpcRefusal { code: RpcCode::InvalidArgument, message: m });
    }
    let v = match resolutions_of(c.h3_res) {
        Ok(v) => v,
        Err(e) => return Err(e),
    };
    if !loaded {
        return Err(refuse(RpcCode::Unimplemented, FORWARD_NOT_BUILT));
    }
    if c.street.is_empty() || c.city.is_empty() || c.country_code.is_empty() {
        return Err(refuse(RpcCode::InvalidArgument, REQUIRED));
    }
    Ok(v)
}

fn next_check(a: Option<String>, name: &str, value: &str, max: usize) -> (r: Option<String>)
    ensures
        opt_view(r) == first(opt_view(a), cap_fault(name@, Some(value@), max as nat)),
{
    match a {
        Some(m) => Some(m),
        None => check_text_opt(name, Some(value), max),
    }
}

/// Whether `r` is the search that finds the street of an address.
pub open spec fn is_validation_search(c: ValidateCall<'_>, r: StructuredQuery<'_>) -> bool {
    &&& r.q is None
    &&& r.street == Some(c.street)
    &&& r.city == Some(c.city)
    &&& opt_str_view(r.state) == some_if_any(c.state@)
    &&& r.country_code == Some(c.country_code)
    &&& r.kind == Some(KIND_STREET)
    &&& r.limit == VALIDATE_HITS
}

/// The search that finds the street of an address.
pub fn validate_call_query<'a>(c: &ValidateCall<'a>) -> (r: StructuredQuery<'a>)
    ensures
        is_validation_search(*c, r),
{
    StructuredQuery {
        q: None,
        street: Some(c.street),
        city: Some(c.city),
        state: empty_to_none(c.state),
        country_code: Some(c.country_code),
        kind: Some(KIND_STREET),
        limit: VALIDATE_HITS,
    }
}

/// Whether `r` is what a validation comes to.
pub open spec fn is_call_verdict(house_number_given: bool, found: bool, r: (bool, &str)) -> bool {
    &&& r.0 == (house_number_given && found)
    &&& r.1@ == (if !house_number_given {
        "interpolated"@
    } else if found {
        "exact"@
    } else {
        "fallback: street found, house not in index"@
    })
}

/// What a validation comes to, once the street was found: whether the address
/// is verified, and how far it is trusted.
pub fn call_verdict(house_number_given: bool, found: bool) -> (r: (bool, &'static str))
    ensures
        is_call_verdict(house_number_given, found, r),
{
    if !house_number_given {
        (false, "interpolated")
    } else if found {
        (true, "exact")
    } else {
        (false, "fallback: street found, house not in index")
    }
}

// --- Autocomplete ---
pub const AUTOCOMPLETE_NOT_BUILT: &'static str = "autocomplete FST not built";

/// Why a call for suggestions is refused.
pub open spec fn autocomplete_call_fault(
    q: Seq<char>,
    country_code: Seq<char>,
    h3_res: Seq<u32>,
    loaded: bool,
) -> Option<RpcText> {
    either(
        invalid(
            first(
                first(
                    cap_fault("q"@, Some(q), AUTOCOMPLETE_Q as nat),
                    cap_fault("country_code"@, Some(country_code), COUNTRY_CODE as nat),
                ),
                list_fault(h3_res),
            ),
        ),
        unless(loaded, RpcCode::Unimplemented, AUTOCOMPLETE_NOT_BUILT@),
    )
}

/// What to suggest.
pub struct SuggestSetup {
    pub limit: usize,
    /// The country to suggest names of, in lower case; all where there is none.
    pub country: Option<[u8; 2]>,
    pub resolutions: Vec<u8>,
}

/// Whether `s` is what a call for suggestions asks for.
pub open spec fn is_suggest_setup(
    country_code: Seq<char>,
    limit: u32,
    h3_res: Seq<u32>,
    s: SuggestSetup,
) -> bool {
    &&& s.limit == rpc_limit(limit)
    &&& match s.country {
        Some(cc) => named_country(Some(country_code)) == Some(code_text(cc)),
        None => named_country(Some(country_code)) is None,
    }
    &&& listed_resolutions(h3_res) == Ok::<Seq<u8>, Seq<char>>(s.resolutions@)
}

/// Checks a call for suggestions.
pub fn autocomplete_call(q: &str, country_code: &str, limit: u32, h3_res: &[u32], loaded: bool) -> (r:
    Result<SuggestSetup, RpcRefusal>)
    ensures
        match r {
            Ok(s) => autocomplete_call_fault(q@, country_code@, h3_res@, loaded) is None
                && is_suggest_setup(country_code@, limit, h3_res@, s),
            Err(e) => autocomplete_call_fault(q@, country_code@, h3_res@, loaded) == Some(e@),
        },
{
    let a = check_text_opt("q", Some(q), AUTOCOMPLETE_Q);
    if let Some(m) = next_check(a, "country_code", country_code, COUNTRY_CODE) {
        return Err(RpcRefusal { code: RpcCode::InvalidArgument, message: m });
    }
    let resolutions = match resolutions_of(h3_res) {
        Ok(v) => v,
        Err(e) => return Err(e),
    };
    if !loaded {
        return Err(refuse(RpcCode::Unimplemented, AUTOCOMPLETE_NOT_BUILT));
    }
    Ok(SuggestSetup { limit: limit_of(limit), country: country_of(Some(country_code)), resolutions })
}

// --- Network addresses ---
pub const IP_NOT_ENABLED: &'static str = "ip geocoding not enabled";

pub const IP_REQUIRED: &'static str = "ip is required when no peer address is available";

/// Why a call for a network address is refused. `parses` says whether the
/// address that is given is one, `peer` whether the address of the caller is
/// known.
pub open spec fn ip_call_fault(
    ip: Seq<char>,
    h3_res: Seq<u32>,
    loaded: bool,
    peer: bool,
    parses: bool,
) -> Option<RpcText> {
    either(
        either(
            invalid(first(cap_fault("ip"@, Some(ip), IP as nat), list_fault(h3_res))),
            unless(loaded, RpcCode::Unavailable, IP_NOT_ENABLED@),
        ),
        invalid(
            if ip.len() == 0 {
                if peer {
                    None
                } else {
                    Some(IP_REQUIRED@)
                }
            } else if parses {
                None
            } else {
                Some(invalid_ip(ip))
            },
        ),
    )
}

/// Checks a call for a network address, and reads its resolutions.
pub fn ip_call(ip: &str, h3_res: &[u32], loaded: bool, peer: bool, parses: bool) -> (r: Result<
    Vec<u8>,
    RpcRefusal,
>)
    ensures
        match r {
            Ok(v) => ip_call_fault(ip@, h3_res@, loaded, peer, parses) is None
                && listed_resolutions(h3_res@) == Ok::<Seq<u8>, Seq<char>>(v@),
            Err(e) => ip_call_fault(ip@, h3_res@, loaded, peer, parses) == Some(e@),
        },
{
    if let Some(m) = check_text_opt("ip", Some(ip), IP) {
        return Err(RpcRefusal { code: RpcCode::InvalidArgument, message: m });
    }
    let v = match resolutions_of(h3_res) {
        Ok(v) => v,
        Err(e) => return Err(e),
    };
    if !loaded {
        return Err(refuse(RpcCode::Unavailable, IP_NOT_ENABLED));
    }
    if ip.is_empty() {
        if !peer {
            return Err(refuse(RpcCode::InvalidArgument, IP_REQUIRED));
        }
    } else if !parses {
        let mut m: Vec<char> = Vec::new();
        append_str(&mut m, "invalid ip ");
        append_str(&mut m, debug_string(ip).as_str());
        assert(m@ =~= invalid_ip(ip@));
        return Err(RpcRefusal { code: RpcCode::InvalidArgument, message: string_of(&m) });
    }
    Ok(v)
}

// --- Messages ---
/// The message of the parts of an address.
pub struct DetailsMessage {
    pub house_number: String,
    pub road: String,
    pub city: String,
    pub state: String,
    pub county: String,
    pub postcode: String,
    pub country: String,
    pub country_code: String,
}

/// The message of an address.
pub struct AddressMessage {
    pub display_name: String,
    pub address: DetailsMessage,
    pub confidence: String,
}

/// A text; empty where there is none.
pub open spec fn or_empty(s: Option<Seq<char>>) -> Seq<char> {
    match s {
        Some(t) => t,
        None => Seq::empty(),
    }
}

fn text_or_empty(s: Option<&str>) -> (r: String)
    ensures
        r@ == or_empty(opt_str_view(s)),
{
    match s {
        Some(t) => t.to_owned(),
        None => String::new(),
    }
}

/// Whether a message holds the parts of an address, with the house number that
/// was matched where there is one.
pub open spec fn is_details(
    m: DetailsMessage,
    src: AddressDetails<'_>,
    matched: Option<Seq<char>>,
) -> bool {
    &&& m.house_number@ == or_empty(first(matched, src@.house_number))
    &&& m.road@ == or_empty(src@.road)
    &&& m.city@ == or_empty(src@.city)
    &&& m.state@ == or_empty(src@.state)
    &&& m.county@ == or_empty(src@.county)
    &&& m.postcode@ == or_empty(src@.postcode)
    &&& m.country@ == or_empty(src@.country)
    &&& m.country_code@ == or_empty(src@.country_code)
}

/// The message of the parts of an address.
pub fn into_pb_details(src: &AddressDetails<'_>, matched: Option<&str>) -> (r: DetailsMessage)
    ensures
        is_details(r, *src, opt_str_view(matched)),
{
    let house_number = match matched {
        Some(m) => m.to_owned(),
        None => match &src.house_number {
            Some(h) => h.clone(),
            None => String::new(),
        },
    };
    let country_code = match &src.country_code {
        Some(c) => c.clone(),
        None => String::new(),
    };
    DetailsMessage {
        house_number,
        road: text_or_empty(src.road),
        city: text_or_empty(src.city),
        state: text_or_empty(src.state),
        county: text_or_empty(src.county),
        postcode: text_or_empty(src.postcode),
        country: text_or_empty(src.country),
        country_code,
    }
}

/// Whether a message is that of an address.
pub open spec fn is_address_message(src: Address<'_>, r: AddressMessage) -> bool {
    &&& r.display_name@ == or_empty(opt_view(src.display_name))
    &&& is_details(r.address, src.address, None)
    &&& r.confidence@ == (match src.confidence {
        Some(c) => match c {
            Confidence::Exact => EXACT@,
            Confidence::Interpolated => INTERPOLATED@,
            Confidence::Fallback => FALLBACK@,
        },
        None => Seq::empty(),
    })
}

/// The message of an address.
pub fn into_pb_address(src: &Address<'_>) -> (r: AddressMessage)
    ensures
        is_address_message(*src, r),
{
    let display_name = match &src.display_name {
        Some(d) => d.clone(),
        None => String::new(),
    };
    let confidence = match &src.confidence {
        Some(c) => c.label().to_owned(),
        None => String::new(),
    };
    AddressMessage { display_name, address: into_pb_details(&src.address, None), confidence }
}

/// The caps on the texts of a search are the same over HTTP and over calls:
/// an absent text is as an empty one.
pub proof fn law_surfaces_share_caps(
    q: Seq<char>,
    street: Seq<char>,
    housenumber: Seq<char>,
    city: Seq<char>,
    state: Seq<char>,
    country_code: Seq<char>,
)
    ensures
        search_caps(
            Some(q),
            Some(street),
            Some(housenumber),
            Some(city),
            Some(state),
            Some(country_code),
        ) == search_caps(
            some_if_any(q),
            some_if_any(street),
            some_if_any(housenumber),
            some_if_any(city),
            some_if_any(state),
            some_if_any(country_code),
        ),
{
    assert(vstd::utf8::encode_utf8(Seq::<char>::empty()).len() == 0);
    if q.len() == 0 {
        assert(q =~= Seq::<char>::empty());
    }
    if street.len() == 0 {
        assert(street =~= Seq::<char>::empty());
    }
    if housenumber.len() == 0 {
        assert(housenumber =~= Seq::<char>::empty());
    }
    if city.len() == 0 {
        assert(city =~= Seq::<char>::empty());
    }
    if state.len() == 0 {
        assert(state =~= Seq::<char>::empty());
    }
    if country_code.len() == 0 {
        assert(country_code =~= Seq::<char>::empty());
    }
}

} // verus!
