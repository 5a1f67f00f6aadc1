//! What requests and calls promise: when they are refused, with which status,
//! and what is made of their fields.
use vstd::prelude::*;
use vstd::utf8::encode_utf8;
use crate::address::Confidence;
use crate::autocomplete::Hit;
use crate::forward_laws::law_best_scores_come_first;
use crate::forward_search::{ranks_before, StructuredQuery};
use crate::h3_cell::{listed_resolutions, token_resolutions};
use crate::openaddresses::code_text;
use crate::query::Address;
use crate::requests::{
    autocomplete_fault, bias_fault, h3_asked, h3_fault, house_number_in, ip_fault,
    is_autocomplete_setup, is_bias, is_nearby_setup, is_search_setup, is_verdict,
    kind_fault, listed_codes, named_country, nearby_fault, nearby_kind_fault, out_of_range,
    result_limit, reverse_fault, search_caps, search_fault, search_in, upper_code, validate_fault,
    validation_search, AutocompleteParams, AutocompleteSetup, BiasInput, NearbyParams, NearbySetup,
    SearchParams, SearchSetup, ValidateParams, Verdict,
};
use crate::responses::{is_report, IndexStatus, LoadedIndexes};
use crate::rpc::{
    autocomplete_call_fault, ip_call_fault, is_address_message, is_call_verdict, is_details,
    is_search_call_setup, is_suggest_setup, is_validation_search, rpc_limit, search_call_fault,
    validate_call_fault, AddressMessage, DetailsMessage, RpcCode, SearchCall, SearchCallSetup,
    SuggestSetup, ValidateCall,
};
use crate::search_flow::{
    asked_countries, is_answer_order, is_exact_scope, is_near_list, is_quick_answer, ExactScope,
};
use crate::suggest::Autocomplete;
use crate::text::{
    is_ascii_letter, nonempty, opt_str_view, opt_view, parse_uint_seq, split_seq, string_views,
    trim_seq,
};

verus! {

broadcast use vstd::seq::group_seq_axioms;

// --- Lengths ---
/// Whether a text has at most `max` bytes; an absent text has.
pub open spec fn within(value: Option<Seq<char>>, max: nat) -> bool {
    value matches Some(v) ==> encode_utf8(v).len() <= max
}

/// The texts of a search are within their bounds exactly where none is at fault:
/// 512 bytes of free text, 256 of a street, a city or a state, 32 of a house
/// number and 64 of country codes.
pub proof fn law_texts_of_a_search_are_bounded(
    q: Option<Seq<char>>,
    street: Option<Seq<char>>,
    housenumber: Option<Seq<char>>,
    city: Option<Seq<char>>,
    state: Option<Seq<char>>,
    country_code: Option<Seq<char>>,
)
    ensures
        search_caps(q, street, housenumber, city, state, country_code) is None <==> {
            &&& within(q, 512)
            &&& within(street, 256)
            &&& within(housenumber, 32)
            &&& within(city, 256)
            &&& within(state, 256)
            &&& within(country_code, 64)
        },
{
}

// --- Refusals ---
/// A search is refused for its texts, its point or its resolutions first, as a
/// bad request; then for want of an index, as not implemented; and then for its
/// kind, as a bad request. Otherwise it is not refused.
pub proof fn law_search_is_refused_in_order(p: SearchParams<'_>, loaded: bool)
    ensures
        ({
            let caps = search_caps(
                opt_str_view(p.q),
                opt_str_view(p.street),
                opt_str_view(p.housenumber),
                opt_str_view(p.city),
                opt_str_view(p.state),
                opt_str_view(p.country_code),
            );
            let bias = bias_fault(p.bias);
            let h3 = h3_fault(opt_str_view(p.h3_res));
            let kind = kind_fault(opt_str_view(p.kind));
            match search_fault(p, loaded) {
                None => caps is None && bias is None && h3 is None && loaded && kind is None,
                Some(e) => {
                    &&& caps is Some ==> e.status == 400 && Some(e.message) == caps
                    &&& caps is None && bias is Some ==> e.status == 400 && Some(e.message) == bias
                    &&& caps is None && bias is None && h3 is Some ==> e.status == 400 && Some(
                        e.message,
                    ) == h3
                    &&& caps is None && bias is None && h3 is None && !loaded ==> e.status == 501
                    &&& caps is None && bias is None && h3 is None && loaded ==> e.status == 400
                        && Some(e.message) == kind
                },
            }
        }),
{
}

/// A point to be near to is at fault where one of its coordinates is missing or
/// out of range: beyond ninety degrees of latitude, or 180 of longitude.
pub proof fn law_point_needs_both_coordinates(
    lat: Option<u64>,
    lng: Option<u64>,
    r: BiasInput<'_>,
)
    requires
        is_bias(lat, lng, r),
    ensures
        bias_fault(r) is None <==> (lat is None && lng is None) || (lat is Some && lng is Some
            && crate::requests::between(lat->0, 0xc056_8000_0000_0000, 0x4056_8000_0000_0000)
            && crate::requests::between(lng->0, 0xc066_8000_0000_0000, 0x4066_8000_0000_0000)),
        r is Given <==> lat is Some && lng is Some && bias_fault(r) is None,
        r is Absent <==> lat is None && lng is None,
{
}

/// A kind is `place`, the first, or `street`, the second, or none at all.
pub proof fn law_kinds_are_numbered(kind: Seq<char>)
    ensures
        kind_fault(None) is None,
        crate::requests::kind_named(None) is None,
        kind_fault(Some(kind)) is None <==> kind == "place"@ || kind == "street"@,
        nearby_kind_fault(Some(kind)) is None <==> kind == "place"@ || kind == "street"@ || kind
            == "poi"@,
        crate::requests::kind_named(Some("place"@)) == Some(1u64),
        crate::requests::kind_named(Some("street"@)) == Some(2u64),
        crate::requests::nearby_kind(Some("place"@)) == Some(1u64),
        crate::requests::nearby_kind(Some("street"@)) == Some(2u64),
        crate::requests::nearby_kind(Some("poi"@)) == Some(3u64),
        crate::rpc::call_kind("place"@) == Some(1u64),
        crate::rpc::call_kind("street"@) == Some(2u64),
        crate::rpc::call_kind_fault(kind) is None <==> kind == "place"@ || kind == "street"@
            || kind.len() == 0,
{
    reveal_strlit("place");
    reveal_strlit("street");
    reveal_strlit("poi");
    assert("place"@.len() == 5 && "street"@.len() == 6 && "poi"@.len() == 3);
}

/// A validation is refused for its texts or its resolutions, as a bad request,
/// and otherwise only for want of an index, as not implemented.
pub proof fn law_validation_is_refused_in_order(p: ValidateParams<'_>, loaded: bool)
    ensures
        ({
            let field = 256nat;
            let texts = within(Some(p.street@), field) && within(Some(p.city@), field) && within(
                opt_str_view(p.state),
                field,
            ) && within(opt_str_view(p.housenumber), 32) && within(opt_str_view(p.postcode), 16)
                && within(Some(p.country_code@), 64);
            let h3 = h3_fault(opt_str_view(p.h3_res)) is None;
            match validate_fault(p, loaded) {
                None => texts && h3 && loaded,
                Some(e) => if texts && h3 {
                    !loaded && e.status == 501
                } else {
                    e.status == 400
                },
            }
        }),
{
}

/// A request for suggestions is refused for its texts or its resolutions, as a
/// bad request, and otherwise only for want of an index, as not implemented.
pub proof fn law_suggestions_are_refused_in_order(p: AutocompleteParams<'_>, loaded: bool)
    ensures
        ({
            let texts = within(Some(p.q@), 128) && within(
                opt_str_view(p.country_code),
                2,
            );
            let h3 = h3_fault(opt_str_view(p.h3_res)) is None;
            match autocomplete_fault(p, loaded) {
                None => texts && h3 && loaded,
                Some(e) => if texts && h3 {
                    !loaded && e.status == 501
                } else {
                    e.status == 400
                },
            }
        }),
{
}

/// A request for what is near is refused for its texts or its resolutions first,
/// then for want of an index, then for its kind, and then for its numbers.
pub proof fn law_nearby_is_refused_in_order(p: NearbyParams<'_>, loaded: bool)
    ensures
        ({
            let texts = within(opt_str_view(p.q), 512) && within(
                opt_str_view(p.country_code),
                64,
            );
            let h3 = h3_fault(opt_str_view(p.h3_res)) is None;
            let kind = nearby_kind_fault(opt_str_view(p.kind));
            match nearby_fault(p, loaded) {
                None => texts && h3 && loaded && kind is None && p.out_of_range is None,
                Some(e) => {
                    &&& !texts || !h3 ==> e.status == 400
                    &&& texts && h3 && !loaded ==> e.status == 501
                    &&& texts && h3 && loaded ==> e.status == 400 && (kind is Some ==> Some(
                        e.message,
                    ) == kind)
                },
            }
        }),
{
}

/// The numbers of a request for what is near are in range where the latitude is
/// within ninety degrees, the longitude within 180, and the radius is above zero
/// and not above a hundred. The first that is not is named.
pub proof fn law_first_number_out_of_range_is_named(lat: u64, lng: u64, radius: u64)
    ensures
        ({
            let lat_ok = crate::requests::between(
                lat,
                0xc056_8000_0000_0000,
                0x4056_8000_0000_0000,
            );
            let lng_ok = crate::requests::between(
                lng,
                0xc066_8000_0000_0000,
                0x4066_8000_0000_0000,
            );
            let radius_ok = 0 < radius <= 0x4059_0000_0000_0000;
            &&& !lat_ok ==> out_of_range(lat, lng, radius) == Some("lat"@)
            &&& lat_ok && !lng_ok ==> out_of_range(lat, lng, radius) == Some("lng"@)
            &&& lat_ok && lng_ok ==> (out_of_range(lat, lng, radius) is None <==> radius_ok)
            &&& lat_ok && lng_ok && !radius_ok ==> out_of_range(lat, lng, radius) == Some(
                "radius_km"@,
            )
        }),
        crate::requests::between(
            lat,
            0xc056_8000_0000_0000,
            0x4056_8000_0000_0000,
        ) <==> lat % 0x8000_0000_0000_0000 <= 0x4056_8000_0000_0000,
        crate::requests::between(
            lng,
            0xc066_8000_0000_0000,
            0x4066_8000_0000_0000,
        ) <==> lng % 0x8000_0000_0000_0000 <= 0x4066_8000_0000_0000,
{
}

/// A request for a network address is refused for its texts, and where what is
/// given is no address, as a bad request; otherwise only for want of a database,
/// as unavailable. A reverse request is refused for its texts only.
pub proof fn law_address_lookup_is_refused_in_order(
    ip: Option<Seq<char>>,
    h3_res: Option<Seq<char>>,
    parses: bool,
    loaded: bool,
    lang: Option<Seq<char>>,
)
    ensures
        ({
            let sound = within(ip, 64) && h3_fault(h3_res) is None && (ip is Some ==> parses);
            match ip_fault(ip, h3_res, parses, loaded) {
                None => sound && loaded,
                Some(e) => if sound {
                    !loaded && e.status == 503
                } else {
                    e.status == 400
                },
            }
        }),
        match reverse_fault(lang, h3_res) {
            None => within(lang, 16) && h3_fault(h3_res) is None,
            Some(e) => e.status == 400 && !(within(lang, 16) && h3_fault(h3_res) is None),
        },
{
}

// --- What is made of the fields ---
/// The number of results is the one asked for, within one and fifty, and ten
/// where none is asked for.
pub proof fn law_number_of_results(n: usize, m: u32)
    ensures
        result_limit(None) == 10,
        1 <= result_limit(Some(n)) <= 50,
        1 <= n <= 50 ==> result_limit(Some(n)) == n,
        n == 0 ==> result_limit(Some(n)) == 1,
        n > 50 ==> result_limit(Some(n)) == 50,
        rpc_limit(0) == 10,
        1 <= m <= 50 ==> rpc_limit(m) == m,
        m > 50 ==> rpc_limit(m) == 50,
{
}

/// A search takes its house number from its own field, and from the free text
/// where that is absent; it may be answered at once where it asks for one result
/// to free text alone, in one country at most and near no point.
pub proof fn law_search_is_set_up(p: SearchParams<'_>, s: SearchSetup)
    requires
        is_search_setup(p, s),
    ensures
        p.housenumber matches Some(h) ==> (s.housenumber matches Some(n) && n@ == h@),
        p.housenumber is None ==> opt_view(s.housenumber) == house_number_in(opt_str_view(p.q)),
        s.limit == result_limit(p.limit),
        p.kind is None ==> s.kind is None,
        p.kind matches Some(k) ==> (k@ == "place"@ ==> s.kind == Some(1u64)) && (k@ == "street"@
            ==> s.kind == Some(2u64)),
        string_views(s.countries@) == listed_codes(opt_str_view(p.country_code)),
        s.fast_path <==> {
            &&& p.street is None && p.city is None && p.state is None
            &&& s.countries@.len() <= 1
            &&& s.limit == 1
            &&& !(p.bias is Given)
            &&& p.q matches Some(q) && trim_seq(q@).len() > 0
        },
        s.resolutions@ == h3_asked(opt_str_view(p.h3_res)),
{
    law_kinds_are_numbered(Seq::empty());
    assert(string_views(s.countries@).len() == s.countries@.len());
}

/// The search in a country has the texts of the request, each in its place.
pub proof fn law_search_keeps_its_texts<'a>(
    p: SearchParams<'a>,
    s: SearchSetup,
    cc: Option<&'a str>,
)
    ensures
        ({
            let r = search_in(p, s, cc);
            &&& r.q == p.q
            &&& r.street == p.street
            &&& r.city == p.city
            &&& r.state == p.state
            &&& r.country_code == cc
            &&& r.kind == s.kind
            &&& r.limit == s.limit
        }),
{
}

/// A validation searches for five streets with the texts of the address, each in
/// its place, and for nothing else.
pub proof fn law_validation_searches_for_streets<'a>(
    p: ValidateParams<'a>,
    c: ValidateCall<'a>,
    r: StructuredQuery<'a>,
)
    requires
        is_validation_search(c, r),
    ensures
        validation_search(p).street == Some(p.street),
        validation_search(p).city == Some(p.city),
        validation_search(p).state == p.state,
        validation_search(p).country_code == Some(p.country_code),
        validation_search(p).kind == Some(2u64),
        validation_search(p).limit == 5,
        validation_search(p).q is None,
        r.street == Some(c.street),
        r.city == Some(c.city),
        r.country_code == Some(c.country_code),
        c.state@.len() > 0 ==> (r.state matches Some(s) && s@ == c.state@),
        c.state@.len() == 0 ==> r.state is None,
        r.kind == Some(2u64),
        r.limit == 5,
        r.q is None,
{
}

/// Only a house number that was given and was found verifies an address, and
/// only then is the answer exact.
pub proof fn law_only_a_found_number_verifies(given: bool, found: bool, r: Verdict, c: (bool, &str))
    requires
        is_verdict(given, found, r),
        is_call_verdict(given, found, c),
    ensures
        r.verified <==> given && found,
        r.confidence@ == "exact"@ <==> r.verified,
        c.0 <==> given && found,
        c.1@ == "exact"@ <==> c.0,
{
    reveal_strlit("exact");
    reveal_strlit("interpolated");
    reveal_strlit("interpolated: street resolved, no house number to verify");
    reveal_strlit("fallback: street found, house number not in index");
    reveal_strlit("fallback: street found, house not in index");
    assert("exact"@.len() == 5);
    assert("interpolated"@.len() == 12);
    assert("interpolated: street resolved, no house number to verify"@.len() > 5);
    assert("fallback: street found, house number not in index"@.len() > 5);
    assert("fallback: street found, house not in index"@.len() > 5);
}

/// A request for suggestions and one for what is near keep the number of results
/// and the resolutions; the country of the first is in lower case.
pub proof fn law_other_requests_are_set_up(
    a: AutocompleteParams<'_>,
    s: AutocompleteSetup,
    n: NearbyParams<'_>,
    t: NearbySetup,
)
    requires
        is_autocomplete_setup(a, s),
        is_nearby_setup(n, t),
    ensures
        s.limit == result_limit(a.limit),
        s.resolutions@ == h3_asked(opt_str_view(a.h3_res)),
        s.country is Some <==> named_country(opt_str_view(a.country_code)) is Some,
        s.country matches Some(cc) ==> 97 <= cc[0] <= 122 && 97 <= cc[1] <= 122,
        t.limit == result_limit(n.limit),
        t.resolutions@ == h3_asked(opt_str_view(n.h3_res)),
        n.kind is None ==> t.kind is None,
        n.kind matches Some(k) ==> (k@ == "poi"@ ==> t.kind == Some(3u64)) && (k@ == "place"@
            ==> t.kind == Some(1u64)) && (k@ == "street"@ ==> t.kind == Some(2u64)),
{
    law_kinds_are_numbered(Seq::empty());
    if let Some(cc) = s.country {
        let t = code_text(cc);
        assert(t[0] == cc[0] as char && t[1] == cc[1] as char);
    }
}

/// Two letters, with white space around them or not, name a country: in lower
/// case for suggestions, and in upper case for searches.
pub proof fn law_two_letters_name_a_country(s: Seq<char>)
    ensures
        ({
            let t = trim_seq(s);
            let two = t.len() == 2 && is_ascii_letter(t[0]) && is_ascii_letter(t[1]);
            &&& named_country(Some(s)) is Some <==> two
            &&& upper_code(s) is Some <==> two
            &&& named_country(Some(s)) matches Some(c) ==> c.len() == 2 && 'a' <= c[0] <= 'z'
                && 'a' <= c[1] <= 'z'
            &&& upper_code(s) matches Some(c) ==> c.len() == 2 && 'A' <= c[0] <= 'Z' && 'A' <= c[1]
                <= 'Z'
            &&& two && 'a' <= t[0] <= 'z' && 'a' <= t[1] <= 'z' ==> named_country(Some(s)) == Some(
                t,
            )
            &&& two && 'A' <= t[0] <= 'Z' && 'A' <= t[1] <= 'Z' ==> upper_code(s) == Some(t)
        }),
        named_country(None) is None,
{
    let t = trim_seq(s);
    if t.len() == 2 && 'a' <= t[0] <= 'z' && 'a' <= t[1] <= 'z' {
        assert(crate::text::lower_seq(t) =~= t);
    }
    if t.len() == 2 && 'A' <= t[0] <= 'Z' && 'A' <= t[1] <= 'Z' {
        assert(seq![t[0], t[1]] =~= t);
    }
}

proof fn lemma_nonempty_contains(pieces: Seq<Seq<char>>, x: Seq<char>)
    ensures
        nonempty(pieces).contains(x) <==> x.len() > 0 && pieces.contains(x),
    decreases pieces.len(),
{
    if pieces.len() == 0 {
        assert(!nonempty(pieces).contains(x));
        assert(!pieces.contains(x));
    } else {
        let front = pieces.drop_last();
        let last = pieces.last();
        let done = nonempty(front);
        lemma_nonempty_contains(front, x);
        assert(pieces.contains(x) <==> front.contains(x) || last == x) by {
            if front.contains(x) {
                let k = choose|k: int| 0 <= k < front.len() && front[k] == x;
                assert(pieces[k] == x);
            }
            if last == x {
                assert(pieces[pieces.len() - 1] == x);
            }
            if pieces.contains(x) && last != x {
                let k = choose|k: int| 0 <= k < pieces.len() && pieces[k] == x;
                assert(front[k] == x);
            }
        }
        assert(done.push(last).contains(x) <==> done.contains(x) || last == x) by {
            if done.contains(x) {
                let k = choose|k: int| 0 <= k < done.len() && done[k] == x;
                assert(done.push(last)[k] == x);
            }
            if last == x {
                assert(done.push(last)[done.len() as int] == x);
            }
            if done.push(last).contains(x) && last != x {
                let k = choose|k: int| 0 <= k < done.push(last).len() && done.push(last)[k] == x;
                assert(done[k] == x);
            }
        }
    }
}

/// The codes of a list are what stands between its commas, without white space
/// around it; what is blank does not count.
pub proof fn law_codes_stand_between_commas(list: Seq<char>, code: Seq<char>)
    ensures
        listed_codes(Some(list)).contains(code) <==> code.len() > 0 && exists|i: int|
            0 <= i < split_seq(list, ',').len() && trim_seq(#[trigger] split_seq(list, ',')[i])
                == code,
        listed_codes(None).len() == 0,
{
    let pieces = split_seq(list, ',');
    let tidy = pieces.map_values(|p: Seq<char>| trim_seq(p));
    lemma_nonempty_contains(tidy, code);
    if tidy.contains(code) {
        let i = choose|i: int| 0 <= i < tidy.len() && tidy[i] == code;
        assert(trim_seq(pieces[i]) == code);
    }
    if exists|i: int| 0 <= i < pieces.len() && trim_seq(#[trigger] pieces[i]) == code {
        let i = choose|i: int| 0 <= i < pieces.len() && trim_seq(#[trigger] pieces[i]) == code;
        assert(tidy[i] == code);
    }
}

/// Each resolution that a list comes to is a number up to fifteen that one of its
/// tokens writes.
pub proof fn law_resolutions_are_those_written(tokens: Seq<Seq<char>>, n: int, k: int)
    requires
        0 <= n <= tokens.len(),
    ensures
        token_resolutions(tokens, n) matches Ok(list) ==> {
            &&& list.len() <= n
            &&& 0 <= k < list.len() ==> list[k] <= 15 && exists|i: int|
                0 <= i < n && parse_uint_seq(trim_seq(#[trigger] tokens[i]), 255) == Some(
                    list[k] as nat,
                )
        },
        token_resolutions(tokens, n) matches Ok(list) ==> (forall|i: int|
            0 <= i < n && trim_seq(#[trigger] tokens[i]).len() > 0 ==> parse_uint_seq(
                trim_seq(tokens[i]),
                255,
            ) is Some),
    decreases n,
{
    if n > 0 {
        law_resolutions_are_those_written(tokens, n - 1, k);
        if let Ok(list) = token_resolutions(tokens, n) {
            let done = token_resolutions(tokens, n - 1)->Ok_0;
            if 0 <= k < list.len() {
                if k < done.len() {
                    assert(list[k] == done[k]);
                    let i = choose|i: int|
                        0 <= i < n - 1 && parse_uint_seq(trim_seq(#[trigger] tokens[i]), 255)
                            == Some(list[k] as nat);
                    assert(parse_uint_seq(trim_seq(tokens[i]), 255) == Some(list[k] as nat));
                } else {
                    assert(parse_uint_seq(trim_seq(tokens[n - 1]), 255) == Some(list[k] as nat));
                }
            }
        }
    }
}

// --- How a search runs ---
/// An exact name is looked up only for a search that it may answer: everywhere
/// where no country is named, and else in the country named first, in lower case.
pub proof fn law_exact_name_is_looked_up_where_asked(s: SearchSetup, r: ExactScope)
    requires
        is_exact_scope(s, r),
    ensures
        r is Nowhere <==> !s.fast_path || (s.countries@.len() > 0 && upper_code(
            s.countries@[0]@,
        ) is None),
        r is Everywhere <==> s.fast_path && s.countries@.len() == 0,
        r matches ExactScope::Country(cc) ==> s.fast_path && s.countries@.len() > 0 && 97 <= cc[0]
            <= 122 && 97 <= cc[1] <= 122 && named_country(Some(s.countries@[0]@)) == Some(
            code_text(cc),
        ),
{
    if let ExactScope::Country(cc) = r {
        let name = s.countries@[0]@;
        let up = upper_code(name)->0;
        let t = trim_seq(name);
        assert(crate::text::lower_seq(up) =~= crate::text::lower_seq(t));
        let c = code_text(cc);
        assert(c[0] == cc[0] as char && c[1] == cc[1] as char);
        assert(crate::text::lower_seq(t)[0] == c[0] && crate::text::lower_seq(t)[1] == c[1]);
    }
}

/// An answer with an exact name has the kind that is asked for, and is what an
/// exact search in the country finds. Where such a search finds something of that
/// kind, it is the answer.
pub proof fn law_quick_answer_fits(
    names: Autocomplete<'_>,
    s: SearchSetup,
    q: Seq<char>,
    r: Option<Hit>,
    cc: [u8; 2],
)
    requires
        is_quick_answer(names, s, q, r),
        s.fast_path,
        s.countries@.len() > 0,
        named_country(Some(s.countries@[0]@)) == Some(code_text(cc)),
    ensures
        r matches Some(hit) ==> names.exact_answer(cc, q) == Some(hit@) && (s.kind matches Some(k)
            ==> k == hit.kind),
        names.exact_answer(cc, q) matches Some(h) ==> (s.kind is None || s.kind == Some(
            h.kind as u64,
        ) ==> (r matches Some(hit) && hit@ == h)),
{
    let (scope, found) = choose|
        scope: ExactScope,
        found: Option<crate::autocomplete::HitText>,
    | #[trigger]
        crate::search_flow::is_exact_in(names, scope, q, found) && is_exact_scope(s, scope)
            && match r {
            Some(hit) => found == Some(hit@) && (s.kind is None || s.kind == Some(hit.kind as u64)),
            None => found matches Some(h) ==> s.kind is Some && s.kind != Some(h.kind as u64),
        };
    law_exact_name_is_looked_up_where_asked(s, scope);
    let name = s.countries@[0]@;
    law_two_letters_name_a_country(name);
    let d = scope->Country_0;
    assert(code_text(d) == code_text(cc));
    assert(code_text(d)[0] == code_text(cc)[0] && code_text(d)[1] == code_text(cc)[1]);
    assert(d@ =~= cc@);
    assert(d == cc);
}

/// A search that may not be answered at once has no quick answer.
pub proof fn law_no_quick_answer_without_leave(
    names: Autocomplete<'_>,
    s: SearchSetup,
    q: Seq<char>,
    r: Option<Hit>,
)
    requires
        is_quick_answer(names, s, q, r),
        !s.fast_path,
    ensures
        r is None,
{
}

/// The forward index is asked once for each country that is named, in their
/// order, and once for all where none is.
pub proof fn law_countries_are_asked_in_order(s: SearchSetup, i: int)
    ensures
        s.countries@.len() == 0 ==> asked_countries(s).len() == 1 && asked_countries(s)[0] is None,
        s.countries@.len() > 0 ==> asked_countries(s).len() == s.countries@.len(),
        0 <= i < s.countries@.len() ==> asked_countries(s)[i] == Some(s.countries@[i]@),
{
}

/// The results of one country stay as they came.
pub proof fn law_one_country_keeps_its_order(s: SearchSetup, scores: Seq<u32>, order: Seq<u64>, i: int)
    requires
        is_answer_order(s, scores, order),
        s.countries@.len() <= 1,
        scores.len() <= u64::MAX,
    ensures
        order.len() == scores.len(),
        0 <= i < order.len() ==> order[i] == i,
{
}

/// What is near is listed from the nearest on, nothing beyond the radius, and
/// everything within it unless there is too much.
pub proof fn law_near_list_is_by_distance(
    dists: Seq<u64>,
    radius: u64,
    limit: nat,
    order: Seq<u64>,
    i: int,
    j: int,
)
    requires
        is_near_list(dists, radius, limit, order),
        radius <= 0x7ff0_0000_0000_0000,
        forall|k: int| 0 <= k < dists.len() ==> #[trigger] dists[k] <= 0x7ff0_0000_0000_0000,
        dists.len() <= u64::MAX,
    ensures
        order.len() <= limit,
        0 <= i < order.len() ==> order[i] < dists.len() && dists[order[i] as int] <= radius,
        0 <= i < j < order.len() ==> dists[order[i] as int] <= dists[order[j] as int],
        0 <= i < order.len() && 0 <= j < dists.len() && dists[j] <= radius && !order.contains(
            j as u64,
        ) ==> order.len() == limit && dists[order[i] as int] <= dists[j],
        order.len() < limit && 0 <= j < dists.len() && dists[j] <= radius ==> order.contains(
            j as u64,
        ),
{
    if 0 <= i < order.len() {
        assert(order[i] < dists.len());
        assert(dists[order[i] as int] <= 0x7ff0_0000_0000_0000);
    }
    if 0 <= i < j < order.len() {
        assert(order[j] < dists.len());
        assert(dists[order[j] as int] <= 0x7ff0_0000_0000_0000);
        assert(crate::search_flow::nearer(dists, order[i] as int, order[j] as int));
    }
    if 0 <= j < dists.len() {
        assert(dists[j] <= 0x7ff0_0000_0000_0000);
        if 0 <= i < order.len() && dists[j] <= radius && !order.contains(j as u64) {
            assert(crate::search_flow::nearer(dists, order[i] as int, j));
        }
    }
}

// --- Calls ---
/// A call for a search is refused for its texts or its resolutions first, then
/// for want of an index, and then for its kind.
pub proof fn law_search_call_is_refused_in_order(c: SearchCall<'_>, loaded: bool)
    ensures
        ({
            let texts = within(Some(c.q@), 512) && within(
                Some(c.street@),
                256,
            ) && within(Some(c.housenumber@), 32) && within(
                Some(c.city@),
                256,
            ) && within(Some(c.state@), 256) && within(
                Some(c.country_code@),
                64,
            );
            let list = listed_resolutions(c.h3_res@) is Ok;
            let kind = c.kind@ == "place"@ || c.kind@ == "street"@ || c.kind@.len() == 0;
            match search_call_fault(c, loaded) {
                None => texts && list && loaded && kind,
                Some(e) => if !texts || !list {
                    e.code == RpcCode::InvalidArgument
                } else if !loaded {
                    e.code == RpcCode::Unimplemented
                } else {
                    !kind && e.code == RpcCode::InvalidArgument
                },
            }
        }),
{
    law_kinds_are_numbered(c.kind@);
}

/// A call for a validation must name a street, a city and a country, and is
/// refused for want of an index before that.
pub proof fn law_validation_call_is_refused_in_order(c: ValidateCall<'_>, loaded: bool)
    ensures
        ({
            let field = 256nat;
            let texts = within(Some(c.street@), field) && within(Some(c.city@), field) && within(
                Some(c.state@),
                field,
            ) && within(Some(c.housenumber@), 32) && within(Some(c.postcode@), 16) && within(
                Some(c.country_code@),
                64,
            );
            let list = listed_resolutions(c.h3_res@) is Ok;
            let named = c.street@.len() > 0 && c.city@.len() > 0 && c.country_code@.len() > 0;
            match validate_call_fault(c, loaded) {
                None => texts && list && loaded && named,
                Some(e) => if !texts || !list {
                    e.code == RpcCode::InvalidArgument
                } else if !loaded {
                    e.code == RpcCode::Unimplemented
                } else {
                    !named && e.code == RpcCode::InvalidArgument
                },
            }
        }),
{
}

/// A call for suggestions is refused for its texts or its resolutions, and
/// otherwise only for want of an index; one for a network address also where no
/// address is given and that of the caller is not known, or where what is given
/// is none.
pub proof fn law_other_calls_are_refused_in_order(
    q: Seq<char>,
    country_code: Seq<char>,
    ip: Seq<char>,
    h3_res: Seq<u32>,
    loaded: bool,
    peer: bool,
    parses: bool,
)
    ensures
        ({
            let list = listed_resolutions(h3_res) is Ok;
            let texts = within(Some(q), 128) && within(
                Some(country_code),
                2,
            );
            match autocomplete_call_fault(q, country_code, h3_res, loaded) {
                None => texts && list && loaded,
                Some(e) => if texts && list {
                    !loaded && e.code == RpcCode::Unimplemented
                } else {
                    e.code == RpcCode::InvalidArgument
                },
            }
        }),
        ({
            let sound = within(Some(ip), 64) && listed_resolutions(h3_res) is Ok;
            let known = if ip.len() == 0 {
                peer
            } else {
                parses
            };
            match ip_call_fault(ip, h3_res, loaded, peer, parses) {
                None => sound && loaded && known,
                Some(e) => if !sound {
                    e.code == RpcCode::InvalidArgument
                } else if !loaded {
                    e.code == RpcCode::Unavailable
                } else {
                    !known && e.code == RpcCode::InvalidArgument
                },
            }
        }),
{
}

/// A call for a search has its texts each in its place; an empty text is none.
/// Its house number comes from its own field, and from the free text where that
/// is empty.
pub proof fn law_search_call_is_set_up(c: SearchCall<'_>, s: SearchCallSetup<'_>)
    requires
        is_search_call_setup(c, s),
    ensures
        c.q@.len() > 0 ==> (s.query.q matches Some(t) && t@ == c.q@),
        c.q@.len() == 0 ==> s.query.q is None,
        c.street@.len() > 0 ==> (s.query.street matches Some(t) && t@ == c.street@),
        c.street@.len() == 0 ==> s.query.street is None,
        c.city@.len() > 0 ==> (s.query.city matches Some(t) && t@ == c.city@),
        c.city@.len() == 0 ==> s.query.city is None,
        c.state@.len() > 0 ==> (s.query.state matches Some(t) && t@ == c.state@),
        c.state@.len() == 0 ==> s.query.state is None,
        c.country_code@.len() > 0 ==> (s.query.country_code matches Some(t) && t@
            == c.country_code@),
        c.country_code@.len() == 0 ==> s.query.country_code is None,
        c.housenumber@.len() > 0 ==> (s.housenumber matches Some(t) && t@ == c.housenumber@),
        c.housenumber@.len() == 0 ==> opt_view(s.housenumber) == house_number_in(Some(c.q@)),
        c.kind@ == "place"@ ==> s.query.kind == Some(1u64),
        c.kind@ == "street"@ ==> s.query.kind == Some(2u64),
        c.kind@.len() == 0 ==> s.query.kind is None,
        s.query.limit == rpc_limit(c.limit),
        s.country is Some <==> upper_code(c.country_code@) is Some,
        s.country matches Some(cc) ==> upper_code(c.country_code@) == Some(code_text(cc)),
{
    law_kinds_are_numbered(c.kind@);
    reveal_strlit("place");
    reveal_strlit("street");
}

/// A call for suggestions keeps the number of results; its country is in lower
/// case.
pub proof fn law_suggest_call_is_set_up(
    country_code: Seq<char>,
    limit: u32,
    h3_res: Seq<u32>,
    s: SuggestSetup,
)
    requires
        is_suggest_setup(country_code, limit, h3_res, s),
    ensures
        s.limit == rpc_limit(limit),
        s.country is Some <==> named_country(Some(country_code)) is Some,
        s.country matches Some(cc) ==> 97 <= cc[0] <= 122 && 97 <= cc[1] <= 122,
        listed_resolutions(h3_res) matches Ok(list) && s.resolutions@ == list,
{
    if let Some(cc) = s.country {
        let t = code_text(cc);
        assert(t[0] == cc[0] as char && t[1] == cc[1] as char);
    }
}

/// Whether a text of a message is a component, or empty where there is none.
pub open spec fn carries(text: Seq<char>, part: Option<&str>) -> bool {
    match part {
        Some(p) => text == p@,
        None => text.len() == 0,
    }
}

/// A message has each component of an address in its own field, and the house
/// number that was matched in place of that of the address.
pub proof fn law_message_has_each_part(
    m: DetailsMessage,
    src: crate::address::AddressDetails<'_>,
    matched: Option<Seq<char>>,
)
    requires
        is_details(m, src, matched),
    ensures
        matched matches Some(n) ==> m.house_number@ == n,
        matched is None ==> match src.house_number {
            Some(n) => m.house_number@ == n@,
            None => m.house_number@.len() == 0,
        },
        carries(m.road@, src.road),
        carries(m.city@, src.city),
        carries(m.state@, src.state),
        carries(m.county@, src.county),
        carries(m.postcode@, src.postcode),
        carries(m.country@, src.country),
        match src.country_code {
            Some(c) => m.country_code@ == c@,
            None => m.country_code@.len() == 0,
        },
{
}

/// The message of an address says how sure it is in a word of its own for each
/// degree, and has its line and its components.
pub proof fn law_message_says_how_sure(src: Address<'_>, r: AddressMessage)
    requires
        is_address_message(src, r),
    ensures
        src.confidence == Some(Confidence::Exact) ==> r.confidence@ == "exact"@,
        src.confidence == Some(Confidence::Interpolated) ==> r.confidence@ == "interpolated"@,
        src.confidence == Some(Confidence::Fallback) ==> r.confidence@ == "fallback"@,
        src.confidence is None ==> r.confidence@.len() == 0,
        match src.display_name {
            Some(d) => r.display_name@ == d@,
            None => r.display_name@.len() == 0,
        },
        is_details(r.address, src.address, None),
{
}

// --- Health ---
/// The report on the indexes says of each whether it is loaded, under its own
/// name; the datasets of Australia have that country and no other.
pub proof fn law_report_tells_what_is_loaded(r: Seq<IndexStatus>, l: LoadedIndexes<'_>, i: int, name: Seq<char>)
    requires
        is_report(r, l),
        0 <= i < r.len(),
        r[i].name@ == name,
    ensures
        name == "reverse"@ ==> r[i].loaded,
        name == "postcode_lookup"@ ==> r[i].loaded == l.postcode_lookup && (
        r[i].countries matches Some(c) && c@.len() == (if l.postcode_lookup {
            1int
        } else {
            0
        })),
        name == "gnaf"@ ==> r[i].loaded == l.gnaf && (r[i].countries matches Some(c) && c@.len()
            == (if l.gnaf {
            1int
        } else {
            0
        })),
        name == "open_addresses"@ ==> r[i].loaded == l.open_addresses is Some && r[i].default is None,
        name == "i18n_names"@ ==> r[i].loaded == l.i18n_names && r[i].countries is None,
        name == "autocomplete"@ ==> r[i].loaded == l.autocomplete is Some && r[i].default is None,
        name == "forward"@ ==> r[i].loaded == l.forward is Some && r[i].default == Some(
            l.forward is Some && l.forward_default,
        ),
        name == "ip_geo"@ ==> r[i].loaded == l.ip_geo && r[i].countries is None,
{
    reveal_strlit("reverse");
    reveal_strlit("postcode_lookup");
    reveal_strlit("gnaf");
    reveal_strlit("open_addresses");
    reveal_strlit("i18n_names");
    reveal_strlit("autocomplete");
    reveal_strlit("forward");
    reveal_strlit("ip_geo");
    assert("reverse"@[0] == 'r' && "forward"@[0] == 'f' && "postcode_lookup"@[0] == 'p');
    assert("gnaf"@[0] == 'g' && "open_addresses"@[0] == 'o' && "autocomplete"@[0] == 'a');
    assert("i18n_names"@[1] == '1' && "ip_geo"@[1] == 'p');
    assert("i18n_names"@[0] == 'i' && "ip_geo"@[0] == 'i');
    assert(string_views(r[1].countries->0@).len() == r[1].countries->0@.len());
    assert(string_views(r[2].countries->0@).len() == r[2].countries->0@.len());
    assert(i == 0 || i == 1 || i == 2 || i == 3 || i == 4 || i == 5 || i == 6 || i == 7);
}

/// Only a street is refined to a house, and only where a house number is known.
/// The number that was matched stands before that of the address. The index is
/// loaded anew where its marker is another than when it was loaded. A setting that
/// is no number leaves the default.
pub proof fn law_results_are_refined(
    kind: u64,
    matched: Option<Seq<char>>,
    own: Option<Seq<char>>,
    at: u64,
    then: u64,
    n: u64,
    default: u64,
)
    ensures
        crate::responses::is_refined(kind, matched) <==> kind == 2 && matched is Some,
        matched is Some ==> crate::requests::first(matched, own) == matched,
        matched is None ==> crate::requests::first(matched, own) == own,
        !crate::responses::is_stale(Some(then), None),
        crate::responses::is_stale(None, Some(at)),
        crate::responses::is_stale(Some(then), Some(at)) <==> then != at,
        crate::responses::number_or(Some(crate::text::decimal(n as nat)), default) == n,
        crate::responses::number_or(None, default) == default,
{
    crate::text::law_written_number_reads_back(n as nat, u64::MAX as nat);
}

/// The results of several countries are put into one order: the best scores come
/// first, of equal ones that which came first, and no more than were asked for.
pub proof fn law_several_countries_share_one_order(
    s: SearchSetup,
    scores: Seq<u32>,
    order: Seq<u64>,
    i: int,
    j: int,
)
    requires
        is_answer_order(s, scores, order),
        s.countries@.len() >= 2,
        forall|k: int| 0 <= k < scores.len() ==> (#[trigger] scores[k]) < 0x7f80_0000,
        scores.len() < u64::MAX,
        0 <= i < j < order.len(),
    ensures
        order.len() == if s.limit < scores.len() {
            s.limit as nat
        } else {
            scores.len()
        },
        scores[order[i] as int] >= scores[order[j] as int],
        scores[order[i] as int] == scores[order[j] as int] ==> order[i] < order[j],
{
    law_best_scores_come_first(scores, s.limit as nat, order);
    assert(ranks_before(scores, order[i] as int, order[j] as int));
    assert(scores[order[i] as int] < 0x7f80_0000);
    assert(scores[order[j] as int] < 0x7f80_0000);
}

} // verus!
