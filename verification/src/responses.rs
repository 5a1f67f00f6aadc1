//! What responses carry: refined results, the health of the indexes, and the
//! settings of the server.
use vstd::prelude::*;
use crate::bytes::utf8_str;
use crate::forward_search::KIND_STREET;
use crate::paths::{join_path, joined};
use crate::requests::first;
use crate::text::{
    chars_of, opt_str_view, opt_view, parse_uint, parse_uint_seq, str_eq, string_views,
};

verus! {

broadcast use vstd::seq::group_seq_axioms;

// --- Results ---
/// Whether a result is refined to a house.
pub open spec fn is_refined(kind: u64, housenumber: Option<Seq<char>>) -> bool {
    kind == KIND_STREET && housenumber is Some
}

/// Whether a result is refined to a house: it is a street, and a house number
/// is known.
pub fn refines(kind: u64, housenumber: Option<&str>) -> (r: bool)
    ensures
        r == is_refined(kind, opt_str_view(housenumber)),
{
    kind == KIND_STREET && housenumber.is_some()
}

/// The house number of a result: the one that was matched, and else that of
/// the address at its place.
pub fn result_house_number(matched: Option<&str>, own: Option<&str>) -> (r: Option<String>)
    ensures
        opt_view(r) == first(opt_str_view(matched), opt_str_view(own)),
{
    match matched {
        Some(m) => Some(m.to_owned()),
        None => match own {
            Some(o) => Some(o.to_owned()),
            None => None,
        },
    }
}

/// The country that a request is counted under: that of the first result, and
/// else the first that the request names.
pub fn counted_country<'a>(first_result: Option<&'a str>, requested: Option<&'a str>) -> (r: Option<
    &'a str,
>)
    ensures
        opt_str_view(r) == first(opt_str_view(first_result), opt_str_view(requested)),
        r == (if first_result is Some {
            first_result
        } else {
            requested
        }),
{
    match first_result {
        Some(c) => Some(c),
        None => requested,
    }
}

// --- Health ---
/// The state of an index.
pub struct IndexStatus {
    pub name: &'static str,
    pub loaded: bool,
    /// The countries it covers, where it has its countries apart.
    pub countries: Option<Vec<String>>,
    /// Whether it has an index of everything, where it may have one.
    pub default: Option<bool>,
}

/// A country code as text; question marks where it is no UTF-8.
pub open spec fn code_string(cc: [u8; 2]) -> Seq<char> {
    if vstd::utf8::valid_utf8(cc@) {
        vstd::utf8::decode_utf8(cc@)
    } else {
        "??"@
    }
}

/// A country code as text.
pub fn cc_to_string(cc: &[u8; 2]) -> (r: String)
    ensures
        r@ == code_string(*cc),
{
    match utf8_str(cc.as_slice()) {
        Some(s) => s.to_owned(),
        None => "??".to_owned(),
    }
}

pub open spec fn code_strings(codes: Seq<[u8; 2]>) -> Seq<Seq<char>> {
    codes.map_values(|c: [u8; 2]| code_string(c))
}

fn codes_to_strings(codes: &[[u8; 2]]) -> (r: Vec<String>)
    ensures
        string_views(r@) == code_strings(codes@),
{
    let mut out: Vec<String> = Vec::new();
    for i in 0..codes.len()
        invariant
            out@.len() == i,
            forall|j: int| 0 <= j < i ==> (#[trigger] out@[j])@ == code_string(codes@[j]),
    {
        out.push(cc_to_string(&codes[i]));
    }
    assert(string_views(out@) =~= code_strings(codes@));
    out
}

/// Which indexes are loaded.
pub struct LoadedIndexes<'a> {
    pub postcode_lookup: bool,
    pub gnaf: bool,
    /// The countries with addresses of their own.
    pub open_addresses: Option<&'a [[u8; 2]]>,
    pub i18n_names: bool,
    /// The countries with suggestions.
    pub autocomplete: Option<&'a [[u8; 2]]>,
    /// The countries that can be searched apart.
    pub forward: Option<&'a [[u8; 2]]>,
    /// Whether everything can be searched at once.
    pub forward_default: bool,
    pub ip_geo: bool,
}

/// Whether a status is that of an index of one country alone.
pub open spec fn is_australian(s: IndexStatus, name: Seq<char>, loaded: bool) -> bool {
    &&& s.name@ == name
    &&& s.loaded == loaded
    &&& s.default is None
    &&& s.countries is Some && string_views(s.countries->0@) == (if loaded {
        seq!["au"@]
    } else {
        Seq::empty()
    })
}

/// Whether a status is that of an index with its countries apart.
pub open spec fn is_partitioned(
    s: IndexStatus,
    name: Seq<char>,
    codes: Option<&[[u8; 2]]>,
    default: Option<bool>,
) -> bool {
    &&& s.name@ == name
    &&& s.loaded == codes is Some
    &&& s.default == default
    &&& s.countries is Some && string_views(s.countries->0@) == (match codes {
        Some(c) => code_strings(c@),
        None => Seq::empty(),
    })
}

/// Whether a status says only whether an index is loaded.
pub open spec fn is_plain_status(s: IndexStatus, name: Seq<char>, loaded: bool) -> bool {
    s.name@ == name && s.loaded == loaded && s.countries is None && s.default is None
}

fn plain_status(name: &'static str, loaded: bool) -> (r: IndexStatus)
    ensures
        is_plain_status(r, name@, loaded),
{
    IndexStatus { name, loaded, countries: None, default: None }
}

fn australian(name: &'static str, loaded: bool) -> (r: IndexStatus)
    ensures
        is_australian(r, name@, loaded),
{
    let mut countries: Vec<String> = Vec::new();
    if loaded {
        countries.push("au".to_owned());
        assert(string_views(countries@) =~= seq!["au"@]);
    } else {
        assert(string_views(countries@) =~= Seq::<Seq<char>>::empty());
    }
    IndexStatus { name, loaded, countries: Some(countries), default: None }
}

fn partitioned(name: &'static str, codes: Option<&[[u8; 2]]>, default: Option<bool>) -> (r:
    IndexStatus)
    ensures
        is_partitioned(r, name@, codes, default),
{
    let countries = match codes {
        Some(c) => codes_to_strings(c),
        None => {
            let none: Vec<String> = Vec::new();
            assert(string_views(none@) =~= Seq::<Seq<char>>::empty());
            none
        },
    };
    IndexStatus { name, loaded: codes.is_some(), countries: Some(countries), default }
}

/// Whether `r` reports which indexes are loaded, and which countries they
/// cover.
pub open spec fn is_report(r: Seq<IndexStatus>, l: LoadedIndexes<'_>) -> bool {
    &&& r.len() == 8
    &&& is_plain_status(r[0], "reverse"@, true)
    &&& is_australian(r[1], "postcode_lookup"@, l.postcode_lookup)
    &&& is_australian(r[2], "gnaf"@, l.gnaf)
    &&& is_partitioned(r[3], "open_addresses"@, l.open_addresses, None)
    &&& is_plain_status(r[4], "i18n_names"@, l.i18n_names)
    &&& is_partitioned(r[5], "autocomplete"@, l.autocomplete, None)
    &&& is_partitioned(r[6], "forward"@, l.forward, Some(l.forward is Some && l.forward_default))
    &&& is_plain_status(r[7], "ip_geo"@, l.ip_geo)
}

/// Reports which indexes are loaded.
pub fn index_report(l: &LoadedIndexes<'_>) -> (r: Vec<IndexStatus>)
    ensures
        is_report(r@, *l),
{
    let mut out: Vec<IndexStatus> = Vec::new();
    out.push(plain_status("reverse", true));
    out.push(australian("postcode_lookup", l.postcode_lookup));
    out.push(australian("gnaf", l.gnaf));
    out.push(partitioned("open_addresses", l.open_addresses, None));
    out.push(plain_status("i18n_names", l.i18n_names));
    out.push(partitioned("autocomplete", l.autocomplete, None));
    out.push(
        partitioned("forward", l.forward, Some(l.forward.is_some() && l.forward_default)),
    );
    out.push(plain_status("ip_geo", l.ip_geo));
    out
}

/// The status and the body of the readiness probe.
pub fn readiness(ready: bool) -> (r: (u16, &'static str))
    ensures
        r.0 == (if ready {
            200u16
        } else {
            503u16
        }),
        r.1@ == (if ready {
            "{\"status\":\"ready\"}"@
        } else {
            "{\"status\":\"loading\"}"@
        }),
{
    if ready {
        (200, "{\"status\":\"ready\"}")
    } else {
        (503, "{\"status\":\"loading\"}")
    }
}

// --- Reloading ---
/// Whether the index is loaded anew.
pub open spec fn is_stale(loaded_at: Option<u64>, marker: Option<u64>) -> bool {
    marker is Some && loaded_at != marker
}

/// Whether the index is loaded anew: the marker is there, and its time is
/// another than when the index was loaded.
pub fn should_reload(loaded_at: Option<u64>, marker: Option<u64>) -> (r: bool)
    ensures
        r == is_stale(loaded_at, marker),
{
    match (loaded_at, marker) {
        (_, None) => false,
        (None, Some(_)) => true,
        (Some(a), Some(b)) => a != b,
    }
}

// --- Settings ---
/// Where a flag stands among arguments.
pub open spec fn flag_at(args: Seq<Seq<char>>, flag: Seq<char>, i: int) -> bool {
    &&& 0 <= i < args.len()
    &&& args[i] == flag
    &&& forall|j: int| 0 <= j < i ==> #[trigger] args[j] != flag
}

/// The argument behind the first occurrence of a flag.
pub fn arg_value<'a>(args: &'a [String], flag: &str) -> (r: Option<&'a str>)
    ensures
        match r {
            Some(v) => exists|i: int| #[trigger]
                flag_at(string_views(args@), flag@, i) && i + 1 < args@.len() && v@
                    == string_views(args@)[i + 1],
            None => forall|i: int| #[trigger]
                flag_at(string_views(args@), flag@, i) ==> i + 1 >= args@.len(),
        },
{
    let ghost all = string_views(args@);
    for i in 0..args.len()
        invariant
            all == string_views(args@),
            forall|j: int| 0 <= j < i ==> #[trigger] all[j] != flag@,
    {
        assert(all[i as int] == args@[i as int]@);
        if str_eq(args[i].as_str(), flag) {
            assert(flag_at(all, flag@, i as int));
            if i + 1 < args.len() {
                assert(all[i + 1] == args@[i + 1]@);
                return Some(args[i + 1].as_str());
            }
            proof {
                assert forall|k: int| #[trigger] flag_at(all, flag@, k) implies k + 1 >= args@.len() by {
                    if k < i {
                        assert(all[k] != flag@);
                    }
                }
            }
            return None;
        }
    }
    proof {
        assert forall|k: int| #[trigger] flag_at(all, flag@, k) implies k + 1 >= args@.len() by {
            assert(all[k] != flag@);
        }
    }
    None
}

/// A number among the settings; a fixed one where it is not given or no
/// number.
pub open spec fn number_or(value: Option<Seq<char>>, default: u64) -> u64 {
    match value {
        Some(v) => match parse_uint_seq(v, u64::MAX as nat) {
            Some(n) => n as u64,
            None => default,
        },
        None => default,
    }
}

/// Reads a number among the settings.
pub fn number_setting(value: Option<&str>, default: u64) -> (r: u64)
    ensures
        r == number_or(opt_str_view(value), default),
{
    match value {
        Some(v) => match parse_uint(&chars_of(v), u64::MAX) {
            Some(n) => n,
            None => default,
        },
        None => default,
    }
}

/// Where the database of network addresses lies: where the environment says,
/// or else in the data directory.
pub fn mmdb_path(setting: Option<&str>, data_dir: &str) -> (r: String)
    ensures
        r@ == (match setting {
            Some(p) => p@,
            None => joined(data_dir@, "GeoLite2-City.mmdb"@),
        }),
{
    match setting {
        Some(p) => p.to_owned(),
        None => join_path(data_dir, "GeoLite2-City.mmdb"),
    }
}

/// Where the marker of a fresh index lies: where the environment says, or else
/// in the data directory.
pub fn marker_path(setting: Option<&str>, data_dir: &str) -> (r: String)
    ensures
        r@ == (match setting {
            Some(p) => p@,
            None => joined(data_dir@, ".reload"@),
        }),
{
    match setting {
        Some(p) => p.to_owned(),
        None => join_path(data_dir, ".reload"),
    }
}

} // verus!
