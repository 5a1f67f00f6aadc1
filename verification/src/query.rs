//! Answers to reverse queries: the administrative context, the address, the
//! postcode and the point of interest brought together.
use vstd::prelude::*;
use vstd::utf8::{decode_utf8, valid_utf8};
use crate::address::{
    format_address, no_details, one_line, AddressDetails, Confidence, DetailsText,
};
use crate::address_points::{match_view, AddressMatch, AddressText};
use crate::admin::{AdminResult, AdminText};
use crate::bytes::{lossy_string, lossy_text};
use crate::h3_cell::H3Entry;
use crate::i18n::{lang_code, pack_lang_code, ALIAS_PRIMARY, ENTITY_ADMIN};
use crate::ieee::{less64, lt64, Candidate};
use crate::index::{
    has_place_flag, is_australia, is_place, GeoResult, Index, InterpCandidate, PlaceMatch, PoiMatch,
};
use crate::openaddresses::nearest_in;
use crate::postcode::{key_of, postcode_for};
use crate::records::{AddrPoint, WayHeader};
use crate::text::{decimal, decimal_chars, opt_str_view, opt_view, str_eq, string_of};

verus! {

broadcast use vstd::seq::group_seq_axioms;

/// The answer to a reverse query.
pub struct Address<'a> {
    pub display_name: Option<String>,
    pub address: AddressDetails<'a>,
    pub confidence: Option<Confidence>,
    /// Filled in where the request asks for cells.
    pub h3: Option<Vec<H3Entry>>,
    pub poi: Option<PoiMatch<'a>>,
}

impl<'a> Default for Address<'a> {
    fn default() -> (r: Address<'a>)
        ensures
            r.display_name is None,
            r.address@ == no_details(),
            r.confidence is None,
            r.h3 is None,
            r.poi is None,
    {
        Address {
            display_name: None,
            address: AddressDetails::default(),
            confidence: None,
            h3: None,
            poi: None,
        }
    }
}

/// The abbreviation of an Australian state.
pub open spec fn state_abbreviation(name: Seq<char>) -> Option<Seq<char>> {
    if name == "New South Wales"@ {
        Some("NSW"@)
    } else if name == "Victoria"@ {
        Some("VIC"@)
    } else if name == "Queensland"@ {
        Some("QLD"@)
    } else if name == "Western Australia"@ {
        Some("WA"@)
    } else if name == "South Australia"@ {
        Some("SA"@)
    } else if name == "Tasmania"@ {
        Some("TAS"@)
    } else if name == "Northern Territory"@ {
        Some("NT"@)
    } else if name == "Australian Capital Territory"@ {
        Some("ACT"@)
    } else {
        None
    }
}

/// The abbreviation under which the postcode lookup knows a state. Only
/// Australia has one, and its code must be in upper case.
pub open spec fn lookup_state(code: Seq<u8>, state: Option<Seq<char>>) -> Option<Seq<char>> {
    match state {
        Some(name) => if code == seq![65u8, 85u8] {
            state_abbreviation(name)
        } else {
            None
        },
        None => None,
    }
}

/// The abbreviation under which the postcode lookup knows a state.
pub fn country_to_state_abbreviation(country_code: &[u8; 2], state_name: Option<&str>) -> (r: Option<
    &'static str,
>)
    ensures
        opt_str_view(r) == lookup_state(country_code@, opt_str_view(state_name)),
{
    let name = match state_name {
        Some(name) => name,
        None => return None,
    };
    if country_code[0] != 65 || country_code[1] != 85 {
        assert(country_code@ != seq![65u8, 85u8]) by {
            assert(country_code@[0] != 65u8 || country_code@[1] != 85u8);
        }
        return None;
    }
    assert(country_code@ =~= seq![65u8, 85u8]);
    if str_eq(name, "New South Wales") {
        Some("NSW")
    } else if str_eq(name, "Victoria") {
        Some("VIC")
    } else if str_eq(name, "Queensland") {
        Some("QLD")
    } else if str_eq(name, "Western Australia") {
        Some("WA")
    } else if str_eq(name, "South Australia") {
        Some("SA")
    } else if str_eq(name, "Tasmania") {
        Some("TAS")
    } else if str_eq(name, "Northern Territory") {
        Some("NT")
    } else if str_eq(name, "Australian Capital Territory") {
        Some("ACT")
    } else {
        None
    }
}

/// Whether the code is that of Australia, in any case.
pub open spec fn code_is_au(code: Option<Seq<u8>>) -> bool {
    code matches Some(c) && (c[0] == 65 || c[0] == 97) && (c[1] == 85 || c[1] == 117)
}

/// What the records of an index found around a point.
pub struct Finds<'a> {
    /// The nearest place.
    pub place: Option<PlaceMatch<'a>>,
    /// The nearest address of the national dataset of Australia.
    pub gnaf: Option<AddressMatch<'a>>,
    /// The nearest address of the dataset of the country.
    pub open_addresses: Option<AddressMatch<'a>>,
    /// The nearest addresses and streets of the index.
    pub geo: GeoResult<'a>,
    /// A point of interest nearby.
    pub poi: Option<PoiMatch<'a>>,
}

/// The name of an optional place.
pub open spec fn place_name(p: Option<PlaceMatch<'_>>) -> Option<Seq<char>> {
    match p {
        Some(m) => Some(m.name@),
        None => None,
    }
}

/// The context with the nearest place for a city, where a country is known and
/// no polygon gave a city.
pub open spec fn with_place(a: AdminText, place: Option<Seq<char>>) -> AdminText {
    if a.city is None && a.country is Some && place is Some {
        AdminText { city: place, ..a }
    } else {
        a
    }
}

/// The postcode of an address, where it has one.
pub open spec fn postcode_of(m: Option<AddressText>) -> Option<Seq<char>> {
    match m {
        Some(t) => if t.postcode.len() > 0 {
            Some(t.postcode)
        } else {
            None
        },
        None => None,
    }
}

/// The postcode that the lookup file has for the locality of a context.
pub open spec fn looked_up(index: Index<'_>, a: AdminText) -> Option<Seq<char>> {
    if index.postcode_lookup is Some && a.country_code is Some && a.city is Some {
        match lookup_state(a.country_code->0, a.state) {
            Some(abbr) => {
                let l = index.postcode_lookup->0;
                if abbr.len() == 0 || a.city->0.len() == 0 {
                    None
                } else {
                    postcode_for(l.entries@, l.strings@, key_of(abbr, a.city->0))
                }
            },
            None => None,
        }
    } else {
        None
    }
}

/// The context with a postcode. Where no polygon gave one it comes from the
/// nearest address of the national dataset (Australia only), else from the
/// nearest address of the country's dataset, else from the lookup by locality
/// (Australia only).
pub open spec fn with_postcode(
    index: Index<'_>,
    a: AdminText,
    gnaf: Option<AddressText>,
    open_addresses: Option<AddressText>,
) -> AdminText {
    if a.postcode is Some {
        a
    } else if code_is_au(a.country_code) && index.gnaf is Some && postcode_of(gnaf) is Some {
        AdminText { postcode: postcode_of(gnaf), ..a }
    } else if a.country_code is Some && index.open_addresses is Some && postcode_of(
        open_addresses,
    ) is Some {
        AdminText { postcode: postcode_of(open_addresses), ..a }
    } else if code_is_au(a.country_code) {
        AdminText { postcode: looked_up(index, a), ..a }
    } else {
        a
    }
}

/// The number and the road of a point, the city that an address names, and
/// how sure they are.
pub struct Street {
    pub house_number: Option<Seq<char>>,
    pub road: Option<Seq<char>>,
    pub city: Option<Seq<char>>,
    pub confidence: Option<Confidence>,
}

/// What the nearest address gives, if it is near enough. Keyed by a place it
/// gives no road, and its place is the city where there is none.
pub open spec fn from_addr(index: Index<'_>, addr: Option<(u64, AddrPoint)>, city: Option<Seq<char>>) -> Street {
    match addr {
        Some((dist, p)) => if lt64(dist, index.max_distance_sq) {
            Street {
                house_number: Some(index.text(p.housenumber_id)),
                road: if is_place(p.flags) {
                    None
                } else {
                    Some(index.text(p.street_or_place_id))
                },
                city: if city is Some {
                    city
                } else if p.parent_place_id != 0 {
                    Some(index.text(p.parent_place_id))
                } else if is_place(p.flags) {
                    Some(index.text(p.street_or_place_id))
                } else {
                    None
                },
                confidence: Some(Confidence::Exact),
            }
        } else {
            Street { house_number: None, road: None, city, confidence: None }
        },
        None => Street { house_number: None, road: None, city, confidence: None },
    }
}

/// With an interpolated number, where there is no road yet and the way is near
/// enough.
pub open spec fn or_interp(index: Index<'_>, s: Street, interp: Option<(u64, Seq<char>, u32)>) -> Street {
    if s.road is None && interp is Some && lt64((interp->0).0, index.max_distance_sq) {
        Street {
            house_number: Some(decimal((interp->0).2 as nat)),
            road: Some((interp->0).1),
            city: s.city,
            confidence: Some(Confidence::Interpolated),
        }
    } else {
        s
    }
}

/// With the nearest street, where there is no road yet and it is near enough.
pub open spec fn or_street(index: Index<'_>, s: Street, street: Option<(u64, WayHeader)>) -> Street {
    if s.road is None && street is Some && lt64((street->0).0, index.max_distance_sq) {
        Street {
            road: Some(index.text((street->0).1.name_id)),
            confidence: Some(Confidence::Fallback),
            ..s
        }
    } else {
        s
    }
}

/// The content of an interpolated address.
pub open spec fn interp_view(i: Option<(u64, &str, u32)>) -> Option<(u64, Seq<char>, u32)> {
    match i {
        Some((d, s, n)) => Some((d, s@, n)),
        None => None,
    }
}

/// The number and the road of a point.
pub open spec fn street_of(index: Index<'_>, geo: GeoResult<'_>, city: Option<Seq<char>>) -> Street {
    or_street(
        index,
        or_interp(index, from_addr(index, geo.addr, city), interp_view(geo.interp)),
        geo.street,
    )
}

/// A country code as text, with replacement characters where it is not text.
pub open spec fn code_text(code: Seq<u8>) -> Seq<char> {
    if valid_utf8(code) {
        decode_utf8(code)
    } else {
        lossy_text(code)
    }
}

/// The components of an address.
pub open spec fn details_of(a: AdminText, s: Street) -> DetailsText {
    DetailsText {
        house_number: s.house_number,
        road: s.road,
        city: s.city,
        state: a.state,
        county: a.county,
        postcode: a.postcode,
        country: a.country,
        country_code: match a.country_code {
            Some(c) => Some(code_text(c)),
            None => None,
        },
    }
}

/// The context of a query with everything but the city settled.
pub open spec fn enriched(index: Index<'_>, a: AdminText, f: Finds<'_>) -> AdminText {
    with_postcode(
        index,
        with_place(a, place_name(f.place)),
        match_view(f.gnaf),
        match_view(f.open_addresses),
    )
}

/// Whether a query found nothing at all.
pub open spec fn finds_nothing(a: AdminText, s: Street, poi: bool) -> bool {
    s.road is None && a.country is None && s.city is None && !poi
}

/// Whether `r` is the answer that comes of a context and what was found.
pub open spec fn is_answer(index: Index<'_>, admin: AdminText, f: Finds<'_>, r: Address<'_>) -> bool {
    let a = enriched(index, admin, f);
    let s = street_of(index, f.geo, a.city);
    &&& r.h3 is None
    &&& if finds_nothing(a, s, f.poi is Some) {
        &&& r.display_name is None
        &&& r.address@ == no_details()
        &&& r.confidence is None
        &&& r.poi is None
    } else {
        &&& r.address@ == details_of(a, s)
        &&& opt_view(r.display_name) == one_line(details_of(a, s))
        &&& r.confidence == Some(
            match s.confidence {
                Some(c) => c,
                None => Confidence::Fallback,
            },
        )
        &&& r.poi == f.poi
    }
}

/// The context of an answer.
pub open spec fn answer_context(index: Index<'_>, admin: AdminText, f: Finds<'_>) -> AdminText {
    let a = enriched(index, admin, f);
    AdminText { city: street_of(index, f.geo, a.city).city, ..a }
}

/// Whether `r` is an answer with its names in a language.
pub open spec fn is_localised(
    index: Index<'_>,
    found: Address<'_>,
    admin: AdminText,
    lang: Option<Seq<char>>,
    r: Address<'_>,
) -> bool {
    match lang {
        Some(l) => if lang_code(l) is Some && index.i18n_names is Some {
            let d = index.localised_details(found.address@, admin, lang_code(l)->0);
            &&& r.address@ == d
            &&& opt_view(r.display_name) == one_line(d)
            &&& r.confidence == found.confidence
            &&& r.h3 == found.h3
            &&& r.poi == found.poi
        } else {
            r == found
        },
        None => r == found,
    }
}

/// How far a point of interest may be from the point of a query: 30 metres,
/// squared, in the units of distances (a binary64 bit pattern).
pub const POI_REACH: u64 = 0x3e73_7edd_d69e_9c37;

/// The records around a point, in the order of a scan and with distances.
#[derive(Clone, Copy)]
pub struct Nearby<'b> {
    pub places: &'b [Candidate],
    pub gnaf: &'b [Candidate],
    /// One list for each open dataset.
    pub open_addresses: &'b [Vec<Candidate>],
    pub addresses: &'b [Candidate],
    pub interpolations: &'b [InterpCandidate],
    pub streets: &'b [Candidate],
    pub pois: &'b [Candidate],
}

/// The name of the nearest place, where a query needs one.
pub open spec fn place_near(index: Index<'_>, admin: AdminText, near: Nearby<'_>) -> Option<
    Seq<char>,
> {
    if admin.city is None && admin.country is Some {
        match index.best_place(near.places@) {
            Some(p) => Some(index.text(p.name_id)),
            None => None,
        }
    } else {
        None
    }
}

/// Whether a point of interest is the one that the records around a point give.
pub open spec fn is_poi_near(index: Index<'_>, near: Nearby<'_>, poi: Option<PoiMatch<'_>>) -> bool {
    match poi {
        Some(m) => {
            &&& index.best_poi(near.pois@, POI_REACH) matches Some(i)
            &&& index.poi(near.pois@[i].id) matches Some(p)
            &&& m.name@ == index.text(p.name_id)
            &&& m.category@ == index.text(p.category_id)
            &&& m.distance == near.pois@[i].dist
        },
        None => index.best_poi(near.pois@, POI_REACH) is None,
    }
}

/// Whether `f` is what the records around a point give.
pub open spec fn are_finds(
    index: Index<'_>,
    admin: AdminResult<'_>,
    near: Nearby<'_>,
    f: Finds<'_>,
) -> bool {
    &&& place_name(f.place) == place_near(index, admin@, near)
    &&& match_view(f.gnaf) == (match index.gnaf {
        Some(g) => nearest_in(g.inner, near.gnaf@),
        None => None,
    })
    &&& match_view(f.open_addresses) == (match (index.open_addresses, admin.country_code) {
        (Some(all), Some(cc)) => all.nearest_near(cc, near.open_addresses@),
        _ => None,
    })
    &&& f.geo.addr == index.best_addr(near.addresses@)
    &&& f.geo.street == index.best_street(near.streets@)
    &&& match f.geo.interp {
        Some((d, s, n)) => index.best_interp(near.interpolations@) == Some((d, s@, n as int)),
        None => index.best_interp(near.interpolations@) is None,
    }
    &&& is_poi_near(index, near, f.poi)
}

impl<'a> Index<'a> {
    /// Picks what a query needs among the records around a point.
    pub fn find_nearby(&self, admin: &AdminResult<'a>, near: &Nearby<'_>) -> (r: Finds<'a>)
        requires
            self.has_lists(near.open_addresses@),
            self.numbers_fit(near.interpolations@),
        ensures
            are_finds(*self, *admin, *near, r),
    {
        let place = if self.wants_place(admin) {
            self.find_place(near.places)
        } else {
            None
        };
        let gnaf = match &self.gnaf {
            Some(g) => g.find_nearest(near.gnaf),
            None => None,
        };
        let open_addresses = match (self.open_addresses, &admin.country_code) {
            (Some(all), Some(cc)) => all.find_nearest_near(cc, near.open_addresses),
            _ => None,
        };
        let geo = self.query_geo(near.addresses, near.interpolations, near.streets);
        let poi = self.find_poi(near.pois, POI_REACH);
        Finds { place, gnaf, open_addresses, geo, poi }
    }

    /// Answers a query from the records around a point, and gives the context of
    /// the answer.
    pub fn query_nearby(&self, admin: AdminResult<'a>, near: &Nearby<'_>) -> (r: (
        Address<'a>,
        AdminResult<'a>,
    ))
        requires
            self.has_lists(near.open_addresses@),
            self.numbers_fit(near.interpolations@),
        ensures
            exists|f: Finds<'a>| #[trigger]
                are_finds(*self, admin, *near, f) && is_answer(*self, admin@, f, r.0) && r.1@
                    == answer_context(*self, admin@, f),
    {
        let finds = self.find_nearby(&admin, near);
        let ghost f = finds;
        assert(are_finds(*self, admin, *near, f));
        self.query_and_admin(admin, finds)
    }

    /// Whether a query needs the nearest place.
    pub fn wants_place(&self, admin: &AdminResult<'a>) -> (r: bool)
        ensures
            r == (admin@.city is None && admin@.country is Some),
    {
        admin.city.is_none() && admin.country.is_some()
    }

    /// Fills in the postcode of a context.
    fn fill_postcode(
        &self,
        admin: &mut AdminResult<'a>,
        gnaf: &Option<AddressMatch<'a>>,
        open_addresses: &Option<AddressMatch<'a>>,
    )
        ensures
            final(admin)@ == with_postcode(
                *self,
                old(admin)@,
                match_view(*gnaf),
                match_view(*open_addresses),
            ),
    {
        if admin.postcode.is_some() {
            return ;
        }
        let code: [u8; 2] = match admin.country_code {
            Some(c) => c,
            None => return ,
        };
        let au = is_australia(&code);
        assert(au == code_is_au(admin@.country_code));
        if au && self.gnaf.is_some() {
            if let Some(m) = gnaf {
                if !m.postcode.is_empty() {
                    admin.postcode = Some(m.postcode);
                    return ;
                }
            }
        }
        if self.open_addresses.is_some() {
            if let Some(m) = open_addresses {
                if !m.postcode.is_empty() {
                    admin.postcode = Some(m.postcode);
                    return ;
                }
            }
        }
        if au {
            if let (Some(lookup), Some(city)) = (self.postcode_lookup, admin.city) {
                if let Some(abbr) = country_to_state_abbreviation(&code, admin.state) {
                    admin.postcode = lookup.postcode(abbr, city);
                }
            }
        }
    }

    /// Brings together what was found around a point, and the context that it
    /// was found in.
    pub fn query_and_admin(&self, admin: AdminResult<'a>, finds: Finds<'a>) -> (r: (
        Address<'a>,
        AdminResult<'a>,
    ))
        ensures
            is_answer(*self, admin@, finds, r.0),
            r.1@ == answer_context(*self, admin@, finds),
    {
        let mut admin = admin;
        let ghost given = admin@;
        if admin.city.is_none() && admin.country.is_some() {
            if let Some(place) = &finds.place {
                admin.city = Some(place.name);
            }
        }
        assert(admin@ =~= with_place(given, place_name(finds.place)));
        self.fill_postcode(&mut admin, &finds.gnaf, &finds.open_addresses);
        let ghost a = admin@;
        assert(a == enriched(*self, given, finds));
        let mut house_number: Option<String> = None;
        let mut road: Option<&'a str> = None;
        let mut confidence: Option<Confidence> = None;
        if let Some((dist, p)) = finds.geo.addr {
            if less64(dist, self.max_distance_sq) {
                house_number = Some(self.get_string(p.housenumber_id).to_owned());
                let place = has_place_flag(p.flags);
                if !place {
                    road = Some(self.get_string(p.street_or_place_id));
                }
                if p.parent_place_id != 0 && admin.city.is_none() {
                    admin.city = Some(self.get_string(p.parent_place_id));
                }
                if place && admin.city.is_none() {
                    admin.city = Some(self.get_string(p.street_or_place_id));
                }
                confidence = Some(Confidence::Exact);
            }
        }
        let ghost s1 = from_addr(*self, finds.geo.addr, a.city);
        assert(opt_view(house_number) == s1.house_number && opt_str_view(road) == s1.road
            && admin@.city == s1.city && confidence == s1.confidence);
        if road.is_none() {
            if let Some((dist, street_name, number)) = finds.geo.interp {
                if less64(dist, self.max_distance_sq) {
                    house_number = Some(string_of(&decimal_chars(number as u64)));
                    road = Some(street_name);
                    confidence = Some(Confidence::Interpolated);
                }
            }
        }
        if road.is_none() {
            if let Some((dist, way)) = finds.geo.street {
                if less64(dist, self.max_distance_sq) {
                    road = Some(self.get_string(way.name_id));
                    confidence = Some(Confidence::Fallback);
                }
            }
        }
        let ghost s = street_of(*self, finds.geo, a.city);
        assert(opt_view(house_number) == s.house_number && opt_str_view(road) == s.road
            && admin@.city == s.city && confidence == s.confidence);
        assert(admin@ =~= (AdminText { city: s.city, ..a }));
        if road.is_none() && admin.country.is_none() && admin.city.is_none() && finds.poi.is_none() {
            return (Address::default(), admin);
        }
        if confidence.is_none() {
            confidence = Some(Confidence::Fallback);
        }
        let country_code = match admin.country_code {
            Some(c) => Some(lossy_string(&c)),
            None => None,
        };
        let address = AddressDetails {
            house_number,
            road,
            city: admin.city,
            state: admin.state,
            county: admin.county,
            postcode: admin.postcode,
            country: admin.country,
            country_code,
        };
        assert(address@ == details_of(a, s));
        let display_name = format_address(&address);
        (Address { display_name, address, confidence, h3: None, poi: finds.poi }, admin)
    }

    /// Brings together what was found around a point.
    pub fn query(&self, admin: AdminResult<'a>, finds: Finds<'a>) -> (r: Address<'a>)
        ensures
            is_answer(*self, admin@, finds, r),
    {
        self.query_and_admin(admin, finds).0
    }

    /// The name of a polygon in a language, where the index has one.
    pub open spec fn localised(&self, poly_id: Option<u32>, code: u16, name: Option<Seq<char>>) -> Option<
        Seq<char>,
    > {
        match poly_id {
            Some(id) => match self.i18n_names->0.found(ENTITY_ADMIN, id, ALIAS_PRIMARY, code) {
                Some(name_id) => Some(self.text(name_id)),
                None => name,
            },
            None => name,
        }
    }

    fn localise(&self, poly_id: Option<u32>, code: u16, name: Option<&'a str>) -> (r: Option<&'a str>)
        requires
            self.i18n_names is Some,
        ensures
            opt_str_view(r) == self.localised(poly_id, code, opt_str_view(name)),
    {
        if let Some(id) = poly_id {
            if let Some(names) = self.i18n_names {
                if let Some(name_id) = names.lookup(ENTITY_ADMIN, id, ALIAS_PRIMARY, code) {
                    return Some(self.get_string(name_id));
                }
            }
        }
        name
    }

    /// The components of an address with the names of its polygons in a
    /// language.
    pub open spec fn localised_details(&self, d: DetailsText, a: AdminText, code: u16) -> DetailsText {
        DetailsText {
            country: self.localised(a.country_poly_id, code, d.country),
            state: self.localised(a.state_poly_id, code, d.state),
            county: self.localised(a.county_poly_id, code, d.county),
            city: self.localised(a.city_poly_id, code, d.city),
            ..d
        }
    }

    /// Puts the names of an answer into a language. Without a language, or
    /// where the index has no names, the answer stays as it is; a name that
    /// does not come from a polygon stays too.
    pub fn query_with_lang(
        &self,
        found: Address<'a>,
        admin: &AdminResult<'a>,
        lang: Option<&str>,
    ) -> (r: Address<'a>)
        ensures
            is_localised(*self, found, admin@, opt_str_view(lang), r),
    {
        let lang = match lang {
            Some(l) => l,
            None => return found,
        };
        let code: u16 = match pack_lang_code(lang) {
            Some(c) => c,
            None => return found,
        };
        if self.i18n_names.is_none() {
            return found;
        }
        let given = found.address;
        let details = AddressDetails {
            country: self.localise(admin.country_poly_id, code, given.country),
            state: self.localise(admin.state_poly_id, code, given.state),
            county: self.localise(admin.county_poly_id, code, given.county),
            city: self.localise(admin.city_poly_id, code, given.city),
            house_number: given.house_number,
            road: given.road,
            postcode: given.postcode,
            country_code: given.country_code,
        };
        let display_name = format_address(&details);
        Address {
            display_name,
            address: details,
            confidence: found.confidence,
            h3: found.h3,
            poi: found.poi,
        }
    }
}

// --- Laws ---
/// The records around a point settle the answer: whatever is picked among them
/// for a query, the address and the context are the same.
pub proof fn law_records_settle_the_answer(
    index: Index<'_>,
    admin: AdminResult<'_>,
    near: Nearby<'_>,
    f: Finds<'_>,
    g: Finds<'_>,
)
    requires
        are_finds(index, admin, near, f),
        are_finds(index, admin, near, g),
    ensures
        enriched(index, admin@, f) == enriched(index, admin@, g),
        street_of(index, f.geo, enriched(index, admin@, f).city) == street_of(
            index,
            g.geo,
            enriched(index, admin@, g).city,
        ),
        answer_context(index, admin@, f) == answer_context(index, admin@, g),
        f.poi is Some <==> g.poi is Some,
{
    assert(interp_view(f.geo.interp) == interp_view(g.geo.interp));
}

/// An answer with an address always says how sure it is: exactly sure only
/// where an address point is near enough.
pub proof fn law_exact_needs_a_near_address(
    index: Index<'_>,
    geo: GeoResult<'_>,
    city: Option<Seq<char>>,
)
    ensures
        street_of(index, geo, city).confidence == Some(Confidence::Exact) ==> (geo.addr matches Some(
            a,
        ) && lt64(a.0, index.max_distance_sq)),
        street_of(index, geo, city).road is Some ==> street_of(index, geo, city).confidence is Some,
{
}

/// What polygons gave is never replaced: a postcode and a city stay.
pub proof fn law_enrichment_only_fills_gaps(index: Index<'_>, a: AdminText, f: Finds<'_>)
    ensures
        a.postcode is Some ==> enriched(index, a, f).postcode == a.postcode,
        a.city is Some ==> enriched(index, a, f).city == a.city,
        a.city is Some ==> street_of(index, f.geo, enriched(index, a, f).city).city == a.city,
        enriched(index, a, f).country == a.country,
        enriched(index, a, f).country_code == a.country_code,
        enriched(index, a, f).state == a.state,
{
}

/// Where no polygon names a country, no place nearby becomes a city.
pub proof fn law_no_place_without_a_country(a: AdminText, place: Option<Seq<char>>)
    requires
        a.country is None,
    ensures
        with_place(a, place) == a,
{
}

} // verus!
