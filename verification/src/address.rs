//! Addresses and their rendering as one line of text.
use vstd::prelude::*;
use crate::text::{append_chars, append_str, opt_str_view, opt_view, str_eq, string_of};

verus! {

broadcast use vstd::seq::group_seq_axioms;

/// A specific address point matched.
pub const EXACT: &'static str = "exact";

/// The number was interpolated along a way.
pub const INTERPOLATED: &'static str = "interpolated";

/// Only a street or an administrative area matched.
pub const FALLBACK: &'static str = "fallback";

/// How strongly a result maps to the requested point.
#[derive(Clone, Copy, Debug, PartialEq, Eq, Structural)]
pub enum Confidence {
    Exact,
    Interpolated,
    Fallback,
}

impl Confidence {
    /// The label of a level of confidence.
    pub fn label(&self) -> (r: &'static str)
        ensures
            r@ == (match self {
                Confidence::Exact => EXACT@,
                Confidence::Interpolated => INTERPOLATED@,
                Confidence::Fallback => FALLBACK@,
            }),
    {
        match self {
            Confidence::Exact => EXACT,
            Confidence::Interpolated => INTERPOLATED,
            Confidence::Fallback => FALLBACK,
        }
    }
}

/// The components of an address.
pub struct AddressDetails<'a> {
    pub house_number: Option<String>,
    pub road: Option<&'a str>,
    pub city: Option<&'a str>,
    pub state: Option<&'a str>,
    pub county: Option<&'a str>,
    pub postcode: Option<&'a str>,
    pub country: Option<&'a str>,
    pub country_code: Option<String>,
}

/// The content of [`AddressDetails`].
pub struct DetailsText {
    pub house_number: Option<Seq<char>>,
    pub road: Option<Seq<char>>,
    pub city: Option<Seq<char>>,
    pub state: Option<Seq<char>>,
    pub county: Option<Seq<char>>,
    pub postcode: Option<Seq<char>>,
    pub country: Option<Seq<char>>,
    pub country_code: Option<Seq<char>>,
}

impl<'a> View for AddressDetails<'a> {
    type V = DetailsText;

    open spec fn view(&self) -> DetailsText {
        DetailsText {
            house_number: opt_view(self.house_number),
            road: opt_str_view(self.road),
            city: opt_str_view(self.city),
            state: opt_str_view(self.state),
            county: opt_str_view(self.county),
            postcode: opt_str_view(self.postcode),
            country: opt_str_view(self.country),
            country_code: opt_view(self.country_code),
        }
    }
}

/// No component at all.
pub open spec fn no_details() -> DetailsText {
    DetailsText {
        house_number: None,
        road: None,
        city: None,
        state: None,
        county: None,
        postcode: None,
        country: None,
        country_code: None,
    }
}

impl<'a> Default for AddressDetails<'a> {
    fn default() -> (r: AddressDetails<'a>)
        ensures
            r@ == no_details(),
    {
        AddressDetails {
            house_number: None,
            road: None,
            city: None,
            state: None,
            county: None,
            postcode: None,
            country: None,
            country_code: None,
        }
    }
}

/// How a country writes addresses.
pub struct Layout {
    /// The house number stands behind the road.
    pub number_after: bool,
    /// The postcode stands before the city.
    pub postcode_first: bool,
    /// The state is part of the address.
    pub with_state: bool,
}

/// The layout of a country.
pub open spec fn layout(code: Option<Seq<char>>) -> Layout {
    match code {
        Some(c) => if c == "US"@ || c == "CA"@ || c == "AU"@ || c == "NZ"@ || c == "GB"@ || c
            == "IE"@ || c == "ZA"@ || c == "IN"@ || c == "NG"@ || c == "KE"@ || c == "GH"@ || c
            == "PK"@ || c == "PH"@ || c == "TH"@ || c == "MY"@ {
            Layout { number_after: false, postcode_first: false, with_state: true }
        } else if c == "JP"@ || c == "KR"@ || c == "CN"@ || c == "TW"@ {
            Layout { number_after: false, postcode_first: true, with_state: true }
        } else {
            Layout { number_after: true, postcode_first: true, with_state: false }
        },
        None => Layout { number_after: true, postcode_first: true, with_state: false },
    }
}

/// The layout of a country: whether the number stands behind the road, whether
/// the postcode stands before the city, and whether the state is written.
pub fn format_rules(country_code: Option<&str>) -> (r: (bool, bool, bool))
    ensures
        r.0 == layout(opt_str_view(country_code)).number_after,
        r.1 == layout(opt_str_view(country_code)).postcode_first,
        r.2 == layout(opt_str_view(country_code)).with_state,
{
    let c = match country_code {
        Some(c) => c,
        None => return (true, true, false),
    };
    if str_eq(c, "US") || str_eq(c, "CA") || str_eq(c, "AU") || str_eq(c, "NZ") || str_eq(c, "GB")
        || str_eq(c, "IE") || str_eq(c, "ZA") || str_eq(c, "IN") || str_eq(c, "NG") || str_eq(
        c,
        "KE",
    ) || str_eq(c, "GH") || str_eq(c, "PK") || str_eq(c, "PH") || str_eq(c, "TH") || str_eq(c, "MY") {
        (false, false, true)
    } else if str_eq(c, "JP") || str_eq(c, "KR") || str_eq(c, "CN") || str_eq(c, "TW") {
        (false, true, true)
    } else {
        (true, true, false)
    }
}

/// The text of a component; empty where it is missing.
pub open spec fn or_empty(s: Option<Seq<char>>) -> Seq<char> {
    match s {
        Some(t) => t,
        None => Seq::empty(),
    }
}

/// `b` behind `a`, with `sep` between them where `a` is not empty.
pub open spec fn chain(a: Seq<char>, sep: Seq<char>, b: Seq<char>) -> Seq<char> {
    if a.len() == 0 {
        b
    } else {
        a + sep + b
    }
}

/// The road and the number.
pub open spec fn street_line(a: DetailsText, l: Layout) -> Seq<char> {
    match (a.road, a.house_number) {
        (Some(road), Some(number)) => if l.number_after {
            road.push(' ') + number
        } else {
            number.push(' ') + road
        },
        (Some(road), None) => road,
        (None, _) => Seq::empty(),
    }
}

/// The state behind the city, where the layout has it.
pub open spec fn with_state(s: Seq<char>, a: DetailsText, l: Layout) -> Seq<char> {
    if l.with_state && a.state is Some {
        chain(s, seq![',', ' '], a.state->0)
    } else {
        s
    }
}

/// The city, the state and the postcode, as the layout orders them.
pub open spec fn city_section(a: DetailsText, l: Layout) -> Seq<char> {
    if l.postcode_first {
        let code = match a.postcode {
            Some(pc) => pc.push(' '),
            None => Seq::empty(),
        };
        with_state(code + or_empty(a.city), a, l)
    } else {
        let s = with_state(or_empty(a.city), a, l);
        match a.postcode {
            Some(pc) => chain(s, seq![' '], pc),
            None => s,
        }
    }
}

/// `s` without the space that it may end with.
pub open spec fn drop_space(s: Seq<char>) -> Seq<char> {
    if s.len() > 0 && s.last() == ' ' {
        s.drop_last()
    } else {
        s
    }
}

/// The line before the country.
pub open spec fn local_line(a: DetailsText, l: Layout) -> Seq<char> {
    let street = street_line(a, l);
    let city = city_section(a, l);
    if city.len() == 0 {
        street
    } else {
        chain(street, seq![',', ' '], drop_space(city))
    }
}

/// The address on one line; none where there is nothing to write.
pub open spec fn one_line(a: DetailsText) -> Option<Seq<char>> {
    let l = layout(a.country_code);
    let line = match a.country {
        Some(country) => chain(local_line(a, l), seq![',', ' '], country),
        None => local_line(a, l),
    };
    if (a.road is None && a.city is None && a.country is None) || line.len() == 0 {
        None
    } else {
        Some(line)
    }
}

/// Appends `b`, behind a comma and a space where `out` is not empty.
fn chain_comma(out: &mut Vec<char>, b: &str)
    ensures
        final(out)@ == chain(old(out)@, seq![',', ' '], b@),
{
    if out.len() > 0 {
        out.push(',');
        out.push(' ');
        assert(out@ =~= old(out)@ + seq![',', ' ']);
    }
    append_str(out, b);
    assert(old(out)@.len() == 0 ==> out@ =~= b@);
}

/// The city, the state and the postcode.
fn city_chars(addr: &AddressDetails<'_>, postcode_first: bool, with_state: bool) -> (r: Vec<char>)
    ensures
        r@ == city_section(
            addr@,
            (Layout { number_after: false, postcode_first, with_state }),
        ),
{
    let mut out: Vec<char> = Vec::new();
    if postcode_first {
        if let Some(pc) = addr.postcode {
            append_str(&mut out, pc);
            out.push(' ');
            assert(out@ =~= pc@.push(' '));
        }
    }
    let ghost code = out@;
    if let Some(city) = addr.city {
        append_str(&mut out, city);
    }
    assert(out@ =~= code + or_empty(addr@.city));
    assert(!postcode_first ==> out@ =~= or_empty(addr@.city));
    if with_state {
        if let Some(state) = addr.state {
            chain_comma(&mut out, state);
        }
    }
    if !postcode_first {
        if let Some(pc) = addr.postcode {
            let ghost before = out@;
            if out.len() > 0 {
                out.push(' ');
                assert(out@ =~= before + seq![' ']);
            }
            append_str(&mut out, pc);
            assert(before.len() == 0 ==> out@ =~= pc@);
        }
    }
    out
}

proof fn lemma_city_ignores_number_order(a: DetailsText, l: Layout)
    ensures
        city_section(a, l) == city_section(
            a,
            (Layout {
                number_after: false,
                postcode_first: l.postcode_first,
                with_state: l.with_state,
            }),
        ),
{
}

/// Renders an address on one line, in the layout of its country.
pub fn format_address(addr: &AddressDetails<'_>) -> (r: Option<String>)
    ensures
        opt_view(r) == one_line(addr@),
{
    if addr.road.is_none() && addr.city.is_none() && addr.country.is_none() {
        return None;
    }
    let code: Option<&str> = match &addr.country_code {
        Some(c) => Some(c.as_str()),
        None => None,
    };
    let (number_after, postcode_first, with_state) = format_rules(code);
    let ghost l = layout(addr@.country_code);
    let mut out: Vec<char> = Vec::new();
    if let Some(road) = addr.road {
        match &addr.house_number {
            Some(number) => {
                if number_after {
                    append_str(&mut out, road);
                    out.push(' ');
                    append_str(&mut out, number.as_str());
                    assert(out@ =~= road@.push(' ') + number@);
                } else {
                    append_str(&mut out, number.as_str());
                    out.push(' ');
                    append_str(&mut out, road);
                    assert(out@ =~= number@.push(' ') + road@);
                }
            },
            None => {
                append_str(&mut out, road);
                assert(out@ =~= road@);
            },
        }
    }
    assert(out@ =~= street_line(addr@, l));
    let mut city = city_chars(addr, postcode_first, with_state);
    proof {
        lemma_city_ignores_number_order(addr@, l);
    }
    if city.len() > 0 {
        if city[city.len() - 1] == ' ' {
            city.pop();
        }
        let ghost street = out@;
        if out.len() > 0 {
            out.push(',');
            out.push(' ');
            assert(out@ =~= street + seq![',', ' ']);
        }
        append_chars(&mut out, &city);
        assert(street.len() == 0 ==> out@ =~= city@);
    }
    assert(out@ == local_line(addr@, l));
    if let Some(country) = addr.country {
        chain_comma(&mut out, country);
    }
    if out.len() == 0 {
        None
    } else {
        Some(string_of(&out))
    }
}

// --- Laws ---
/// An address has a line exactly where it names a road, a city or a country
/// and the line would not be empty; a line is never empty. A name is enough for
/// a line, but for a city of nothing but one space, which a line drops.
pub proof fn law_line_is_not_empty(a: DetailsText)
    ensures
        one_line(a) matches Some(line) ==> line.len() > 0,
        a.road is None && a.city is None && a.country is None ==> one_line(a) is None,
        a.country matches Some(c) && c.len() > 0 ==> one_line(a) is Some,
        a.road matches Some(r) && r.len() > 0 ==> one_line(a) is Some,
        a.city matches Some(c) && c.len() > 0 && c != seq![' '] ==> one_line(a) is Some,
{
    let l = layout(a.country_code);
    if a.city is Some && (a.city->0).len() > 0 && a.city->0 != seq![' '] {
        let city = city_section(a, l);
        assert(city.len() >= (a.city->0).len());
        if city.len() == 1 {
            assert((a.city->0)[0] != ' ') by {
                assert((a.city->0)[0] == ' ' ==> a.city->0 =~= seq![' ']);
            }
            assert(city =~= a.city->0);
        }
        assert(drop_space(city).len() > 0);
    }
}

/// The country closes the line, and the county is never part of it.
pub proof fn law_country_closes_the_line(a: DetailsText, county: Option<Seq<char>>)
    ensures
        one_line(DetailsText { county, ..a }) == one_line(a),
        one_line(a) is Some && a.country is Some ==> crate::text::has_suffix(
            one_line(a)->0,
            a.country->0,
        ),
{
    let b = DetailsText { county, ..a };
    let l = layout(a.country_code);
    assert(local_line(b, l) == local_line(a, l));
    if one_line(a) is Some && a.country is Some {
        let line = one_line(a)->0;
        let c = a.country->0;
        assert(line.skip(line.len() - c.len()) =~= c);
    }
}

/// Where the number leads, the line of a full address is the number and the
/// road, the city, the state with the postcode behind it, and the country.
pub proof fn law_number_leads(
    a: DetailsText,
    number: Seq<char>,
    road: Seq<char>,
    city: Seq<char>,
    state: Seq<char>,
    postcode: Seq<char>,
    country: Seq<char>,
)
    requires
        a.house_number == Some(number),
        a.road == Some(road),
        a.city == Some(city),
        a.state == Some(state),
        a.postcode == Some(postcode),
        a.country == Some(country),
        city.len() > 0,
        postcode.len() > 0 && postcode.last() != ' ',
        a.country_code matches Some(c) && (c == "US"@ || c == "AU"@ || c == "GB"@ || c == "NZ"@ || c
            == "CA"@ || c == "IE"@ || c == "ZA"@ || c == "IN"@ || c == "NG"@ || c == "KE"@ || c
            == "GH"@ || c == "PK"@ || c == "PH"@ || c == "TH"@ || c == "MY"@),
    ensures
        one_line(a) == Some(
            number + seq![' '] + road + seq![',', ' '] + city + seq![',', ' '] + state + seq![' ']
                + postcode + seq![',', ' '] + country,
        ),
{
    let l = layout(a.country_code);
    let street = street_line(a, l);
    assert(street =~= number + seq![' '] + road);
    let section = city_section(a, l);
    assert(section =~= city + seq![',', ' '] + state + seq![' '] + postcode);
    assert(drop_space(section) == section);
    assert(one_line(a)->0 =~= number + seq![' '] + road + seq![',', ' '] + city + seq![',', ' ']
        + state + seq![' '] + postcode + seq![',', ' '] + country);
}

/// In the countries of the far east the number leads, the postcode stands before
/// the city, and the state behind it.
pub proof fn law_number_and_postcode_lead(
    a: DetailsText,
    number: Seq<char>,
    road: Seq<char>,
    city: Seq<char>,
    state: Seq<char>,
    postcode: Seq<char>,
    country: Seq<char>,
)
    requires
        a.house_number == Some(number),
        a.road == Some(road),
        a.city == Some(city),
        a.state == Some(state),
        a.postcode == Some(postcode),
        a.country == Some(country),
        state.len() > 0 && state.last() != ' ',
        a.country_code matches Some(c) && (c == "JP"@ || c == "KR"@ || c == "CN"@ || c == "TW"@),
    ensures
        one_line(a) == Some(
            number + seq![' '] + road + seq![',', ' '] + postcode + seq![' '] + city + seq![
                ',',
                ' ',
            ] + state + seq![',', ' '] + country,
        ),
{
    reveal_strlit("US");
    reveal_strlit("CA");
    reveal_strlit("AU");
    reveal_strlit("NZ");
    reveal_strlit("GB");
    reveal_strlit("IE");
    reveal_strlit("ZA");
    reveal_strlit("IN");
    reveal_strlit("NG");
    reveal_strlit("KE");
    reveal_strlit("GH");
    reveal_strlit("PK");
    reveal_strlit("PH");
    reveal_strlit("TH");
    reveal_strlit("MY");
    reveal_strlit("JP");
    reveal_strlit("KR");
    reveal_strlit("CN");
    reveal_strlit("TW");
    let c = a.country_code->0;
    assert(c[0] == 'J' || c[1] == 'R' || c[1] == 'N' && c[0] == 'C' || c[1] == 'W');
    let l = layout(a.country_code);
    let street = street_line(a, l);
    assert(street =~= number + seq![' '] + road);
    let section = city_section(a, l);
    assert(section =~= postcode + seq![' '] + city + seq![',', ' '] + state);
    assert(drop_space(section) == section);
    assert(one_line(a)->0 =~= number + seq![' '] + road + seq![',', ' '] + postcode + seq![' ']
        + city + seq![',', ' '] + state + seq![',', ' '] + country);
}

/// Elsewhere, and where the country is not known, the road leads and the
/// postcode stands before the city; the state is not written.
pub proof fn law_road_leads(
    a: DetailsText,
    number: Seq<char>,
    road: Seq<char>,
    city: Seq<char>,
    postcode: Seq<char>,
    country: Seq<char>,
)
    requires
        a.house_number == Some(number),
        a.road == Some(road),
        a.city == Some(city),
        a.postcode == Some(postcode),
        a.country == Some(country),
        city.len() > 0 && city.last() != ' ',
        a.country_code matches Some(c) ==> c != "US"@ && c != "CA"@ && c != "AU"@ && c != "NZ"@ && c
            != "GB"@ && c != "IE"@ && c != "ZA"@ && c != "IN"@ && c != "NG"@ && c != "KE"@ && c
            != "GH"@ && c != "PK"@ && c != "PH"@ && c != "TH"@ && c != "MY"@ && c != "JP"@ && c
            != "KR"@ && c != "CN"@ && c != "TW"@,
    ensures
        one_line(a) == Some(
            road + seq![' '] + number + seq![',', ' '] + postcode + seq![' '] + city + seq![
                ',',
                ' ',
            ] + country,
        ),
{
    let l = layout(a.country_code);
    let street = street_line(a, l);
    assert(street =~= road + seq![' '] + number);
    let section = city_section(a, l);
    assert(section =~= postcode + seq![' '] + city);
    assert(drop_space(section) == section);
    assert(one_line(a)->0 =~= road + seq![' '] + number + seq![',', ' '] + postcode + seq![' ']
        + city + seq![',', ' '] + country);
}

/// A house number is written only with a road; without a number the road stands
/// alone. The state is written only in the countries whose lines have one, and a
/// county never.
pub proof fn law_number_needs_a_road(a: DetailsText, number: Option<Seq<char>>)
    ensures
        a.road is None ==> one_line(DetailsText { house_number: number, ..a }) == one_line(a),
        a.road is Some && a.road->0.len() > 0 && a.house_number is None && a.city is None && a.state
            is None && a.postcode is None ==> one_line(a) == (match a.country {
            Some(country) => Some(a.road->0 + seq![',', ' '] + country),
            None => a.road,
        }),
        a.road is None && a.city is None && a.state is None && a.postcode is None && (
        a.country matches Some(country) && country.len() > 0) ==> one_line(a) == a.country,
{
    let l = layout(a.country_code);
    let section = city_section(a, l);
    if a.city is None && a.state is None && a.postcode is None {
        assert(section =~= Seq::<char>::empty());
        if a.road is Some && a.road->0.len() > 0 && a.country is Some && a.house_number is None {
            assert(one_line(a)->0 =~= a.road->0 + seq![',', ' '] + a.country->0);
        }
    }
}

/// Where the number leads, a part that is missing leaves no gap: the city stands
/// before the postcode where there is no state, the state is the end of the local
/// line where there is no postcode, and the local line begins with the city where
/// there is no road.
pub proof fn law_missing_parts_leave_no_gap(
    a: DetailsText,
    city: Seq<char>,
    state: Seq<char>,
    postcode: Seq<char>,
    country: Seq<char>,
)
    requires
        a.country_code == Some("AU"@) || a.country_code == Some("US"@) || a.country_code == Some(
            "GB"@,
        ),
        a.road is None,
        a.city == Some(city),
        a.country == Some(country),
        city.len() > 0 && city.last() != ' ',
        state.len() > 0 && state.last() != ' ',
        postcode.len() > 0 && postcode.last() != ' ',
    ensures
        a.state == Some(state) && a.postcode == Some(postcode) ==> one_line(a) == Some(
            city + seq![',', ' '] + state + seq![' '] + postcode + seq![',', ' '] + country,
        ),
        a.state is None && a.postcode == Some(postcode) ==> one_line(a) == Some(
            city + seq![' '] + postcode + seq![',', ' '] + country,
        ),
        a.state == Some(state) && a.postcode is None ==> one_line(a) == Some(
            city + seq![',', ' '] + state + seq![',', ' '] + country,
        ),
        a.state is None && a.postcode is None ==> one_line(a) == Some(
            city + seq![',', ' '] + country,
        ),
{
    let l = layout(a.country_code);
    let section = city_section(a, l);
    if (a.state is None || a.state == Some(state)) && (a.postcode is None || a.postcode == Some(
        postcode,
    )) {
        assert(drop_space(section) == section);
    }
}

/// Where the road leads, the state is not written, and a part that is missing
/// leaves no gap.
pub proof fn law_state_is_left_out(a: DetailsText, state: Option<Seq<char>>)
    requires
        a.country_code matches Some(c) ==> c != "US"@ && c != "CA"@ && c != "AU"@ && c != "NZ"@ && c
            != "GB"@ && c != "IE"@ && c != "ZA"@ && c != "IN"@ && c != "NG"@ && c != "KE"@ && c
            != "GH"@ && c != "PK"@ && c != "PH"@ && c != "TH"@ && c != "MY"@ && c != "JP"@ && c
            != "KR"@ && c != "CN"@ && c != "TW"@,
    ensures
        one_line(DetailsText { state, ..a }) == one_line(a),
        a.road is None && a.postcode is None && (a.city matches Some(city) && city.len() > 0
            && city.last() != ' ') && a.country is Some ==> one_line(a) == Some(
            a.city->0 + seq![',', ' '] + a.country->0,
        ),
        a.road is None && a.city is None && (a.postcode matches Some(code) && code.len() > 0)
            && a.country is Some ==> one_line(a) == Some(
            a.postcode->0 + seq![',', ' '] + a.country->0,
        ),
{
    let l = layout(a.country_code);
    let b = DetailsText { state, ..a };
    assert(city_section(b, l) == city_section(a, l));
    let section = city_section(a, l);
    if a.postcode is None && a.city is Some {
        assert(section =~= a.city->0);
    }
    if a.postcode is Some && a.city is None {
        assert(section =~= a.postcode->0.push(' '));
        assert(drop_space(section) =~= a.postcode->0);
    }
}

} // verus!
