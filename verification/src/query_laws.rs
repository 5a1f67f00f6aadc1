//! What an answer to a reverse query promises.
//!
//! The promises speak of the records around a point and of the answer alone.
use vstd::prelude::*;
use crate::address::{one_line, Confidence};
use crate::address_laws::law_nearest_address_is_nearest;
use crate::admin::{AdminResult, AdminText};
use crate::i18n::{lang_code, law_lookup_is_exact, I18nNames, ALIAS_PRIMARY, ENTITY_ADMIN};
use crate::ieee::{law_nearest_is_minimal, lt64, rank64, Candidate};
use crate::index::Index;
use crate::openaddresses::{lower_code, OpenAddresses};
use crate::postcode::{key_of, postcode_for};
use crate::query::{
    answer_context, are_finds, is_answer, is_localised, lookup_state, Address, Finds, Nearby,
};
use crate::records::{addr_point_of, poi_point_of, way_header_of, AddrPoint, WayHeader};
use crate::text::{decimal_value, opt_view};

verus! {

broadcast use vstd::seq::group_seq_axioms;

/// Where the nearest address is near enough and keyed by a street, the answer is
/// that address, for certain, whatever streets and ways with interpolated
/// numbers are around.
pub proof fn law_near_house_answers(
    index: Index<'_>,
    admin: AdminText,
    f: Finds<'_>,
    r: Address<'_>,
    dist: u64,
    p: AddrPoint,
)
    requires
        is_answer(index, admin, f, r),
        f.geo.addr == Some((dist, p)),
        lt64(dist, index.max_distance_sq),
        p.flags % 2 == 0,
    ensures
        r.address@.house_number == Some(index.text(p.housenumber_id)),
        r.address@.road == Some(index.text(p.street_or_place_id)),
        r.confidence == Some(Confidence::Exact),
{
}

/// An address that is keyed by a place has no road of its own. Where no road is
/// near enough either, the answer has its number, and no road, for certain. Its
/// city is that of the context, else the place that the address names as its
/// parent, else the place that it is keyed by.
pub proof fn law_near_place_address_answers(
    index: Index<'_>,
    admin: AdminText,
    f: Finds<'_>,
    r: Address<'_>,
    dist: u64,
    p: AddrPoint,
)
    requires
        is_answer(index, admin, f, r),
        f.geo.addr == Some((dist, p)),
        lt64(dist, index.max_distance_sq),
        p.flags % 2 == 1,
        f.geo.interp matches Some(w) ==> !lt64(w.0, index.max_distance_sq),
        f.geo.street matches Some(w) ==> !lt64(w.0, index.max_distance_sq),
    ensures
        r.address@.house_number == Some(index.text(p.housenumber_id)),
        r.address@.road is None,
        r.confidence == Some(Confidence::Exact),
        admin.city is None && (admin.country is None || f.place is None) ==> r.address@.city == Some(
            if p.parent_place_id != 0 {
                index.text(p.parent_place_id)
            } else {
                index.text(p.street_or_place_id)
            },
        ),
{
}

/// Where no address is near enough, or only one without a road, the nearest way
/// with house numbers gives the road and the number, if it is near enough.
pub proof fn law_interpolated_number_answers(
    index: Index<'_>,
    admin: AdminText,
    f: Finds<'_>,
    r: Address<'_>,
    dist: u64,
    road: &str,
    number: u32,
)
    requires
        is_answer(index, admin, f, r),
        f.geo.addr matches Some(a) ==> !lt64(a.0, index.max_distance_sq) || a.1.flags % 2 == 1,
        f.geo.interp == Some((dist, road, number)),
        lt64(dist, index.max_distance_sq),
    ensures
        r.address@.road == Some(road@),
        r.address@.house_number matches Some(n) && decimal_value(n) == number,
        r.confidence == Some(Confidence::Interpolated),
{
    crate::text::lemma_decimal_round_trip(number as nat);
}

/// Where there is no address or way with house numbers near enough, the nearest
/// street gives the road, without a number and as a fallback, if it is near
/// enough. Where none is, the answer has neither.
pub proof fn law_street_is_the_fallback(
    index: Index<'_>,
    admin: AdminText,
    f: Finds<'_>,
    r: Address<'_>,
)
    requires
        is_answer(index, admin, f, r),
        f.geo.addr matches Some(a) ==> !lt64(a.0, index.max_distance_sq),
        f.geo.interp matches Some(w) ==> !lt64(w.0, index.max_distance_sq),
    ensures
        r.address@.house_number is None,
        match f.geo.street {
            Some((dist, way)) => if lt64(dist, index.max_distance_sq) {
                &&& r.address@.road == Some(index.text(way.name_id))
                &&& r.confidence == Some(Confidence::Fallback)
            } else {
                r.address@.road is None
            },
            None => r.address@.road is None,
        },
        r.confidence is Some ==> r.confidence == Some(Confidence::Fallback),
{
}

/// The country, the state and the county of an answer are those of the context,
/// and so are its city and its postcode where the context has them. Where a
/// country is known and no region names a city, the nearest place does.
pub proof fn law_answer_keeps_the_context(
    index: Index<'_>,
    admin: AdminText,
    f: Finds<'_>,
    r: Address<'_>,
)
    requires
        is_answer(index, admin, f, r),
    ensures
        r.address@.country == admin.country,
        admin.country is Some ==> r.address@.state == admin.state,
        admin.country is Some ==> r.address@.county == admin.county,
        admin.country is Some && admin.city is Some ==> r.address@.city == admin.city,
        admin.country is Some && admin.postcode is Some ==> r.address@.postcode == admin.postcode,
        admin.country is Some && admin.city is None && f.place is Some ==> r.address@.city == Some(
            (f.place->0).name@,
        ),
        admin.country is Some ==> r.confidence is Some && r.poi == f.poi,
        opt_view(r.display_name) == one_line(r.address@),
        f.poi is Some ==> r.poi == f.poi,
        r.h3 is None,
{
}

/// An answer without a country, a road, a city and a point of interest is no
/// answer; any other has a confidence.
pub proof fn law_empty_answers_are_empty(
    index: Index<'_>,
    admin: AdminText,
    f: Finds<'_>,
    r: Address<'_>,
)
    requires
        is_answer(index, admin, f, r),
    ensures
        r.confidence is None <==> admin.country is None && r.address@.road is None
            && r.address@.city is None && f.poi is None,
        r.confidence is None ==> r.display_name is None && r.address@.house_number is None
            && r.address@.state is None && r.address@.postcode is None && r.poi is None,
{
}

/// The two letters of Australia, in any case.
pub open spec fn says_australia(code: Seq<u8>) -> bool {
    code == seq![65u8, 85u8] || code == seq![65u8, 117u8] || code == seq![97u8, 85u8] || code
        == seq![97u8, 117u8]
}

/// Where no region gives a postcode, the nearest address of the national dataset
/// does, for Australia alone; else the nearest address of the open dataset of
/// the country. Outside Australia there is no other source.
pub proof fn law_postcode_comes_from_the_nearest_address(
    index: Index<'_>,
    admin: AdminText,
    f: Finds<'_>,
    r: Address<'_>,
)
    requires
        is_answer(index, admin, f, r),
        admin.country is Some,
        admin.postcode is None,
        admin.country_code matches Some(code) && code.len() == 2,
    ensures
        ({
            let au = says_australia(admin.country_code->0);
            let national = match f.gnaf {
                Some(m) => au && index.gnaf is Some && m.postcode@.len() > 0,
                None => false,
            };
            let open = match f.open_addresses {
                Some(m) => index.open_addresses is Some && m.postcode@.len() > 0,
                None => false,
            };
            &&& national ==> r.address@.postcode == Some((f.gnaf->0).postcode@)
            &&& !national && open ==> r.address@.postcode == Some((f.open_addresses->0).postcode@)
            &&& !national && !open && !au ==> r.address@.postcode is None
            &&& !national && !open && index.postcode_lookup is None ==> r.address@.postcode is None
        }),
{
    let code = admin.country_code->0;
    assert(says_australia(code) <==> (code[0] == 65 || code[0] == 97) && (code[1] == 85 || code[1]
        == 117)) by {
        assert(code =~= seq![code[0], code[1]]);
    }
}

/// What an answer says of a place, the context of the answer says too.
pub proof fn law_context_agrees_with_the_answer(
    index: Index<'_>,
    admin: AdminText,
    f: Finds<'_>,
    r: Address<'_>,
)
    requires
        is_answer(index, admin, f, r),
        r.confidence is Some,
    ensures
        answer_context(index, admin, f).city == r.address@.city,
        answer_context(index, admin, f).postcode == r.address@.postcode,
        answer_context(index, admin, f).country == r.address@.country,
        answer_context(index, admin, f).state == r.address@.state,
        answer_context(index, admin, f).county == r.address@.county,
        answer_context(index, admin, f).country_poly_id == admin.country_poly_id,
        answer_context(index, admin, f).state_poly_id == admin.state_poly_id,
        answer_context(index, admin, f).county_poly_id == admin.county_poly_id,
        answer_context(index, admin, f).city_poly_id == admin.city_poly_id,
        answer_context(index, admin, f).country_code == admin.country_code,
{
}

// --- From the records ---
/// Whether distances are those of records: not negative, and numbers.
pub open spec fn are_distances(cands: Seq<Candidate>) -> bool {
    forall|i: int| 0 <= i < cands.len() ==> (#[trigger] cands[i]).dist < 0x7fef_ffff_ffff_ffff
}

/// Whether record `i` is closer than any other.
pub open spec fn is_closest(cands: Seq<Candidate>, i: int) -> bool {
    &&& 0 <= i < cands.len()
    &&& forall|j: int| 0 <= j < cands.len() && j != i ==> cands[i].dist < (#[trigger] cands[j]).dist
}

proof fn lemma_closest_is_nearest(cands: Seq<Candidate>, marks: Seq<bool>, i: int)
    requires
        are_distances(cands),
        is_closest(cands, i),
        marks.len() == cands.len(),
        marks[i],
    ensures
        crate::ieee::nearest(cands, marks) == Some(i),
{
    assert forall|j: int| 0 <= j < cands.len() implies rank64(#[trigger] cands[j].dist) == Some(
        cands[j].dist as int,
    ) by {
        assert(cands[j].dist < 0x7fef_ffff_ffff_ffff);
    }
    law_nearest_is_minimal(cands, marks);
    match crate::ieee::nearest(cands, marks) {
        Some(b) => {
            if b != i {
                assert(cands[i].dist < cands[b].dist);
                assert(rank64(cands[b].dist)->0 <= rank64(cands[i].dist)->0);
            }
        },
        None => {
            assert(!marks[i]);
        },
    }
}

/// The house that is closest to a point, if it is near enough and has a street,
/// is the answer for the point: its number and its street, for certain.
pub proof fn law_closest_house_answers(
    index: Index<'_>,
    admin: AdminResult<'_>,
    near: Nearby<'_>,
    f: Finds<'_>,
    r: Address<'_>,
    i: int,
    p: AddrPoint,
)
    requires
        are_finds(index, admin, near, f),
        is_answer(index, admin@, f, r),
        are_distances(near.addresses@),
        is_closest(near.addresses@, i),
        addr_point_of(index.addr_points@, near.addresses@[i].id as int) == Some(p),
        near.addresses@[i].dist < index.max_distance_sq,
        index.max_distance_sq < 0x7fef_ffff_ffff_ffff,
        p.flags % 2 == 0,
    ensures
        r.address@.house_number == Some(index.text(p.housenumber_id)),
        r.address@.road == Some(index.text(p.street_or_place_id)),
        r.confidence == Some(Confidence::Exact),
{
    let cands = near.addresses@;
    assert(cands[i].dist < 0x7fef_ffff_ffff_ffff);
    lemma_closest_is_nearest(cands, index.addr_marks(cands), i);
}

/// The street that is closest to a point, if it is near enough, is the road of
/// the answer where there are no house numbers around.
pub proof fn law_closest_street_answers(
    index: Index<'_>,
    admin: AdminResult<'_>,
    near: Nearby<'_>,
    f: Finds<'_>,
    r: Address<'_>,
    i: int,
)
    requires
        are_finds(index, admin, near, f),
        is_answer(index, admin@, f, r),
        near.addresses@.len() == 0,
        near.interpolations@.len() == 0,
        are_distances(near.streets@),
        is_closest(near.streets@, i),
        way_header_of(index.street_ways@, near.streets@[i].id as int) is Some,
        near.streets@[i].dist < index.max_distance_sq,
        index.max_distance_sq < 0x7fef_ffff_ffff_ffff,
    ensures
        r.address@.house_number is None,
        r.address@.road == Some(
            index.text(
                (way_header_of(index.street_ways@, near.streets@[i].id as int)->0).name_id,
            ),
        ),
        r.confidence == Some(Confidence::Fallback),
{
    let cands = near.streets@;
    assert(cands[i].dist < 0x7fef_ffff_ffff_ffff);
    lemma_closest_is_nearest(cands, index.street_marks(cands), i);
    assert(near.addresses@ =~= Seq::empty());
    assert(crate::index::plain(near.interpolations@) =~= Seq::empty());
}

/// A point of interest of an answer is one of those around the point, with its
/// name and its category, and no farther than the reach.
pub proof fn law_point_of_interest_is_near(
    index: Index<'_>,
    admin: AdminResult<'_>,
    near: Nearby<'_>,
    f: Finds<'_>,
    r: Address<'_>,
)
    requires
        are_finds(index, admin, near, f),
        is_answer(index, admin@, f, r),
        are_distances(near.pois@),
        index.poi_points is Some,
    ensures
        match r.poi {
            Some(m) => exists|i: int|
                {
                    &&& 0 <= i < near.pois@.len()
                    &&& poi_point_of((index.poi_points->0)@, (#[trigger] near.pois@[i]).id as int)
                        matches Some(p)
                    &&& m.name@ == index.text(p.name_id)
                    &&& m.category@ == index.text(p.category_id)
                    &&& m.distance == near.pois@[i].dist
                    &&& m.distance <= 0x3e73_7edd_d69e_9c37
                },
            None => forall|i: int|
                0 <= i < near.pois@.len() && poi_point_of(
                    (index.poi_points->0)@,
                    (#[trigger] near.pois@[i]).id as int,
                ) is Some ==> near.pois@[i].dist > 0x3e73_7edd_d69e_9c37,
        },
{
    let cands = near.pois@;
    let marks = index.poi_marks(cands, crate::query::POI_REACH);
    crate::index::law_lowest_rank_wins(index.poi_ranks(cands), marks, cands.len() as int);
    match r.poi {
        Some(m) => {
            let i = index.best_poi(cands, crate::query::POI_REACH)->0;
            assert(marks[i]);
            assert(cands[i].dist < 0x7fef_ffff_ffff_ffff);
        },
        None => {
            assert forall|i: int|
                0 <= i < near.pois@.len() && poi_point_of(
                    (index.poi_points->0)@,
                    (#[trigger] near.pois@[i]).id as int,
                ) is Some implies near.pois@[i].dist > 0x3e73_7edd_d69e_9c37 by {
                assert(!marks[i]);
            }
        },
    }
}

// --- Languages ---
/// Whether a names file has a name for a region in a language: a record of the
/// region with that language, as its main name.
pub open spec fn names_region(names: I18nNames<'_>, id: u32, code: u16, name_id: u32) -> bool {
    exists|i: int|
        {
            &&& 0 <= i < names.count()
            &&& (#[trigger] names.record(i)).entity_type == 0
            &&& names.record(i).entity_id == id
            &&& names.record(i).alias_type == 0
            &&& names.record(i).lang_code == code
            &&& names.record(i).name_id == name_id
        }
}

/// Whether a name in an answer is what a language makes of it: a name that the
/// file has for the region that it comes from, and the name itself where the
/// file has none or the name comes from no region.
pub open spec fn is_name_in(
    index: Index<'_>,
    code: u16,
    region: Option<u32>,
    before: Option<Seq<char>>,
    after: Option<Seq<char>>,
) -> bool {
    match region {
        Some(id) => if exists|n: u32| #[trigger] names_region(index.i18n_names->0, id, code, n) {
            exists|n: u32| #[trigger]
                names_region(index.i18n_names->0, id, code, n) && after == Some(index.text(n))
        } else {
            after == before
        },
        None => after == before,
    }
}

proof fn lemma_name_in(index: Index<'_>, code: u16, region: Option<u32>, name: Option<Seq<char>>)
    requires
        index.i18n_names matches Some(names) && names.ordered(),
    ensures
        is_name_in(index, code, region, name, index.localised(region, code, name)),
{
    let names = index.i18n_names->0;
    if let Some(id) = region {
        law_lookup_is_exact(names, ENTITY_ADMIN, id, ALIAS_PRIMARY, code);
        match names.found(ENTITY_ADMIN, id, ALIAS_PRIMARY, code) {
            Some(n) => {
                let i = choose|i: int|
                    0 <= i < names.count() && #[trigger] names.is_name(
                        i,
                        ENTITY_ADMIN,
                        id,
                        ALIAS_PRIMARY,
                        code,
                    ) && names.record(i).name_id == n;
                assert(names.record(i).name_id == n);
                assert(names_region(names, id, code, n));
            },
            None => {
                assert forall|n: u32| !#[trigger] names_region(names, id, code, n) by {
                    if names_region(names, id, code, n) {
                        let i = choose|i: int|
                            {
                                &&& 0 <= i < names.count()
                                &&& (#[trigger] names.record(i)).entity_type == 0
                                &&& names.record(i).entity_id == id
                                &&& names.record(i).alias_type == 0
                                &&& names.record(i).lang_code == code
                                &&& names.record(i).name_id == n
                            };
                        assert(names.is_name(i, ENTITY_ADMIN, id, ALIAS_PRIMARY, code));
                    }
                }
            },
        }
    }
}

/// In a language, the country, the state, the county and the city of an answer
/// each have the name that the names file has for the region that they come
/// from, and no other; where it has none, the name stays. Nothing else of the
/// answer changes but the line that it is written on.
pub proof fn law_names_are_in_the_language(
    index: Index<'_>,
    found: Address<'_>,
    admin: AdminText,
    lang: Seq<char>,
    r: Address<'_>,
)
    requires
        is_localised(index, found, admin, Some(lang), r),
        lang_code(lang) is Some,
        index.i18n_names matches Some(names) && names.ordered(),
    ensures
        ({
            let code = lang_code(lang)->0;
            let (was, is) = (found.address@, r.address@);
            &&& is_name_in(index, code, admin.country_poly_id, was.country, is.country)
            &&& is_name_in(index, code, admin.state_poly_id, was.state, is.state)
            &&& is_name_in(index, code, admin.county_poly_id, was.county, is.county)
            &&& is_name_in(index, code, admin.city_poly_id, was.city, is.city)
            &&& is.house_number == was.house_number
            &&& is.road == was.road
            &&& is.postcode == was.postcode
            &&& is.country_code == was.country_code
        }),
        opt_view(r.display_name) == one_line(r.address@),
        r.confidence == found.confidence,
        r.poi == found.poi,
        r.h3 == found.h3,
{
    let code = lang_code(lang)->0;
    let was = found.address@;
    lemma_name_in(index, code, admin.country_poly_id, was.country);
    lemma_name_in(index, code, admin.state_poly_id, was.state);
    lemma_name_in(index, code, admin.county_poly_id, was.county);
    lemma_name_in(index, code, admin.city_poly_id, was.city);
}

/// Without a language, with a tag that names none, or without a names file, an
/// answer stays as it is.
pub proof fn law_no_language_changes_nothing(
    index: Index<'_>,
    found: Address<'_>,
    admin: AdminText,
    lang: Option<Seq<char>>,
    r: Address<'_>,
)
    requires
        is_localised(index, found, admin, lang, r),
        lang is None || lang_code(lang->0) is None || index.i18n_names is None,
    ensures
        r == found,
{
}

// --- The postcode of a locality ---
/// Whether `abbr` is made of the initials of a name: each word of the name gives
/// the letter that it begins with, and there are no others.
pub open spec fn are_initials(name: Seq<char>, abbr: Seq<char>) -> bool {
    &&& name.len() > 0 && abbr.len() > 0
    &&& name[0] == abbr[0]
    &&& forall|i: int|
        0 < i < name.len() && name[i - 1] == ' ' ==> abbr.skip(1).contains(#[trigger] name[i])
    &&& forall|k: int|
        0 < k < abbr.len() ==> exists|i: int|
            0 < i < name.len() && name[i - 1] == ' ' && #[trigger] name[i] == #[trigger] abbr[k]
}

/// The abbreviation of a state whose name has several words is made of their
/// initials; that of a state of one word begins with the letter of the name and
/// has three letters of it. Only in Australia are there any.
pub proof fn law_state_is_abbreviated(code: Seq<u8>, name: Seq<char>)
    ensures
        lookup_state(code, Some(name)) matches Some(abbr) ==> {
            &&& code == seq![65u8, 85u8]
            &&& name.contains(' ') ==> are_initials(name, abbr)
            &&& !name.contains(' ') ==> abbr.len() == 3 && abbr[0] == name[0] && abbr != name
        },
        lookup_state(code, None) is None,
        code == seq![65u8, 85u8] ==> (lookup_state(code, Some(name)) is Some <==> name
            == "New South Wales"@ || name == "Victoria"@ || name == "Queensland"@ || name
            == "Western Australia"@ || name == "South Australia"@ || name == "Tasmania"@ || name
            == "Northern Territory"@ || name == "Australian Capital Territory"@),
        code == seq![65u8, 85u8] && name == seq!['V', 'i', 'c', 't', 'o', 'r', 'i', 'a']
            ==> lookup_state(code, Some(name)) == Some(seq!['V', 'I', 'C']),
        code == seq![65u8, 85u8] && name == seq![
            'Q',
            'u',
            'e',
            'e',
            'n',
            's',
            'l',
            'a',
            'n',
            'd',
        ] ==> lookup_state(code, Some(name)) == Some(seq!['Q', 'L', 'D']),
        code == seq![65u8, 85u8] && name == seq!['T', 'a', 's', 'm', 'a', 'n', 'i', 'a']
            ==> lookup_state(code, Some(name)) == Some(seq!['T', 'A', 'S']),
{
    reveal_strlit("New South Wales");
    reveal_strlit("Victoria");
    reveal_strlit("Queensland");
    reveal_strlit("Western Australia");
    reveal_strlit("South Australia");
    reveal_strlit("Tasmania");
    reveal_strlit("Northern Territory");
    reveal_strlit("Australian Capital Territory");
    reveal_strlit("NSW");
    reveal_strlit("VIC");
    reveal_strlit("QLD");
    reveal_strlit("WA");
    reveal_strlit("SA");
    reveal_strlit("TAS");
    reveal_strlit("NT");
    reveal_strlit("ACT");
    assert("VIC"@ =~= seq!['V', 'I', 'C']);
    assert("QLD"@ =~= seq!['Q', 'L', 'D']);
    assert("TAS"@ =~= seq!['T', 'A', 'S']);
    assert("Victoria"@ =~= seq!['V', 'i', 'c', 't', 'o', 'r', 'i', 'a']);
    assert("Queensland"@ =~= seq!['Q', 'u', 'e', 'e', 'n', 's', 'l', 'a', 'n', 'd']);
    assert("Tasmania"@ =~= seq!['T', 'a', 's', 'm', 'a', 'n', 'i', 'a']);
    if code == seq![65u8, 85u8] {
        if name == "New South Wales"@ {
            assert(name[3] == ' ' && name[4] == 'S' && name[9] == ' ' && name[10] == 'W');
            assert("NSW"@.skip(1)[0] == 'S' && "NSW"@.skip(1)[1] == 'W');
        } else if name == "Western Australia"@ {
            assert(name[7] == ' ' && name[8] == 'A');
            assert("WA"@.skip(1)[0] == 'A');
        } else if name == "South Australia"@ {
            assert(name[5] == ' ' && name[6] == 'A');
            assert("SA"@.skip(1)[0] == 'A');
        } else if name == "Northern Territory"@ {
            assert(name[8] == ' ' && name[9] == 'T');
            assert("NT"@.skip(1)[0] == 'T');
        } else if name == "Australian Capital Territory"@ {
            assert(name[10] == ' ' && name[11] == 'C' && name[18] == ' ' && name[19] == 'T');
            assert("ACT"@.skip(1)[0] == 'C' && "ACT"@.skip(1)[1] == 'T');
        }
    }
}

/// Where in Australia no address around a point has a postcode, the answer has
/// the one that the lookup gives for the city, under the abbreviation of the
/// state.
pub proof fn law_postcode_is_looked_up(
    index: Index<'_>,
    admin: AdminText,
    f: Finds<'_>,
    r: Address<'_>,
    city: Seq<char>,
    abbr: Seq<char>,
)
    requires
        is_answer(index, admin, f, r),
        admin.country is Some,
        admin.postcode is None,
        admin.country_code == Some(seq![65u8, 85u8]),
        admin.city == Some(city),
        city.len() > 0,
        lookup_state(seq![65u8, 85u8], admin.state) == Some(abbr),
        f.gnaf is None,
        f.open_addresses is None,
        index.postcode_lookup is Some,
    ensures
        r.address@.postcode == postcode_for(
            index.postcode_lookup->0.entries@,
            index.postcode_lookup->0.strings@,
            key_of(abbr, city),
        ),
{
    law_state_is_abbreviated(seq![65u8, 85u8], admin.state->0);
}

/// Where the context has no city, an address near enough names it: by the place
/// that it belongs to, or else, keyed by a place, by that place.
pub proof fn law_near_address_names_the_city(
    index: Index<'_>,
    admin: AdminText,
    f: Finds<'_>,
    r: Address<'_>,
    dist: u64,
    p: AddrPoint,
)
    requires
        is_answer(index, admin, f, r),
        f.geo.addr == Some((dist, p)),
        lt64(dist, index.max_distance_sq),
        admin.city is None,
        admin.country is None || f.place is None,
    ensures
        p.parent_place_id != 0 ==> r.address@.city == Some(index.text(p.parent_place_id)),
        p.parent_place_id == 0 && p.flags % 2 == 1 ==> r.address@.city == Some(
            index.text(p.street_or_place_id),
        ),
        p.parent_place_id == 0 && p.flags % 2 == 0 ==> r.address@.city is None,
{
}

/// An address keyed by a place has no road; a street that is near enough lends it
/// one, and the answer is no longer exact. The number stays.
pub proof fn law_street_lends_its_name(
    index: Index<'_>,
    admin: AdminText,
    f: Finds<'_>,
    r: Address<'_>,
    dist: u64,
    p: AddrPoint,
    away: u64,
    way: WayHeader,
)
    requires
        is_answer(index, admin, f, r),
        f.geo.addr == Some((dist, p)),
        lt64(dist, index.max_distance_sq),
        p.flags % 2 == 1,
        f.geo.interp matches Some(w) ==> !lt64(w.0, index.max_distance_sq),
        f.geo.street == Some((away, way)),
        lt64(away, index.max_distance_sq),
    ensures
        r.address@.house_number == Some(index.text(p.housenumber_id)),
        r.address@.road == Some(index.text(way.name_id)),
        r.confidence == Some(Confidence::Fallback),
{
}

/// An answer has the state and the county of its context, and the country code of
/// its context as text.
pub proof fn law_answer_is_in_its_regions(
    index: Index<'_>,
    admin: AdminText,
    f: Finds<'_>,
    r: Address<'_>,
)
    requires
        is_answer(index, admin, f, r),
        r.confidence is Some,
    ensures
        r.address@.state == admin.state,
        r.address@.county == admin.county,
        r.address@.country == admin.country,
        r.address@.country_code is Some <==> admin.country_code is Some,
        admin.country_code matches Some(code) ==> vstd::utf8::valid_utf8(code)
            ==> vstd::utf8::encode_utf8(r.address@.country_code->0) == code,
        r.poi == f.poi,
{
    if let Some(code) = admin.country_code {
        if vstd::utf8::valid_utf8(code) {
            vstd::utf8::decode_utf8_encode_utf8(code);
        }
    }
}

/// The address of the national dataset is the nearest of those around; without
/// the dataset there is none.
pub proof fn law_national_address_is_the_nearest(
    index: Index<'_>,
    admin: AdminResult<'_>,
    near: Nearby<'_>,
    f: Finds<'_>,
)
    requires
        are_finds(index, admin, near, f),
        are_distances(near.gnaf@),
    ensures
        index.gnaf is None ==> f.gnaf is None,
        index.gnaf matches Some(g) ==> match f.gnaf {
            Some(m) => exists|b: int|
                {
                    &&& 0 <= b < near.gnaf@.len()
                    &&& (#[trigger] near.gnaf@[b]).id < g.inner.point_count()
                    &&& m@ == g.inner.address(g.inner.point(near.gnaf@[b].id as int))
                    &&& forall|i: int|
                        0 <= i < near.gnaf@.len() && (#[trigger] near.gnaf@[i]).id
                            < g.inner.point_count() ==> near.gnaf@[b].dist <= near.gnaf@[i].dist
                },
            None => forall|i: int|
                0 <= i < near.gnaf@.len() ==> (#[trigger] near.gnaf@[i]).id >= g.inner.point_count(),
        },
{
    if let Some(g) = index.gnaf {
        law_nearest_address_is_nearest(g.inner, near.gnaf@);
    }
}

/// The open address is the nearest of those of the country that the point lies
/// in; there is none where the country has no index.
pub proof fn law_open_address_is_of_the_country(
    index: Index<'_>,
    admin: AdminResult<'_>,
    near: Nearby<'_>,
    f: Finds<'_>,
    all: &OpenAddresses<'_>,
    cc: [u8; 2],
    s: int,
)
    requires
        are_finds(index, admin, near, f),
        index.open_addresses == Some(all),
        all.wf(),
        admin.country_code == Some(cc),
        0 <= s < all.shards@.len(),
        are_distances(near.open_addresses@[s]@),
    ensures
        all.shards@[s].code@ == lower_code(cc)@ ==> match f.open_addresses {
            Some(m) => exists|b: int|
                {
                    let shard = all.shards@[s].index;
                    &&& 0 <= b < near.open_addresses@[s]@.len()
                    &&& (#[trigger] near.open_addresses@[s]@[b]).id < shard.point_count()
                    &&& m@ == shard.address(shard.point(near.open_addresses@[s]@[b].id as int))
                    &&& forall|i: int|
                        0 <= i < near.open_addresses@[s]@.len() && (
                        #[trigger] near.open_addresses@[s]@[i]).id < shard.point_count()
                            ==> near.open_addresses@[s]@[b].dist <= near.open_addresses@[s]@[i].dist
                },
            None => forall|i: int|
                0 <= i < near.open_addresses@[s]@.len() ==> (
                #[trigger] near.open_addresses@[s]@[i]).id >= all.shards@[s].index.point_count(),
        },
        (forall|i: int|
            0 <= i < all.shards@.len() ==> (#[trigger] all.shards@[i]).code@ != lower_code(cc)@)
            ==> f.open_addresses is None,
{
    law_nearest_address_is_nearest(all.shards@[s].index, near.open_addresses@[s]@);
    if all.shards@[s].code@ == lower_code(cc)@ {
        all.lemma_one_shard(s, cc);
    }
    if all.covers(cc) {
        let i = choose|i: int| #[trigger] all.is_shard(i, cc);
        assert(all.shards@[i].code@ == lower_code(cc)@);
    }
}

/// A place is looked for just where the point lies in a country and in no city.
pub proof fn law_place_fills_a_missing_city(
    index: Index<'_>,
    admin: AdminResult<'_>,
    near: Nearby<'_>,
    f: Finds<'_>,
)
    requires
        are_finds(index, admin, near, f),
    ensures
        admin@.city is Some || admin@.country is None ==> f.place is None,
        admin@.city is None && admin@.country is Some ==> match index.best_place(near.places@) {
            Some(p) => f.place matches Some(m) && m.name@ == index.text(p.name_id),
            None => f.place is None,
        },
        admin.country_code is None || index.open_addresses is None ==> f.open_addresses is None,
{
}

} // verus!
