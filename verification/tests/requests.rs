use query_server::h3_cell::H3Entry;
use query_server::manifest::{dirty_flags, git_dirty_state, git_sha, manifest_path, reverse_file_names, verify_reverse, GitDirty};
use query_server::address::{AddressDetails, Confidence};
use query_server::query::Address;
use query_server::requests::{
    autocomplete_request, bias_input, check_text_opt, country_query, ip_not_found, ip_request, kind_matches,
    nearby_out_of_range, nearby_request, parse_country_code_bytes, reverse_request, search_failed, search_request,
    split_codes, validate_query, validate_request, validation_verdict, AutocompleteParams, BiasInput, NearbyParams,
    SearchParams, ValidateParams, BAD_REQUEST, INTERNAL_SERVER_ERROR, NOT_FOUND, NOT_IMPLEMENTED,
};
use query_server::responses::{
    arg_value, cc_to_string, counted_country, index_report, marker_path, mmdb_path, number_setting, readiness, refines,
    result_house_number, should_reload, LoadedIndexes,
};
use query_server::rpc::{
    autocomplete_call, call_verdict, empty_to_none, h3_call, into_pb_address, into_pb_details, ip_call, no_cell, parse_cc,
    reverse_call, search_call, validate_call, validate_call_query, RpcCode, SearchCall, ValidateCall,
};

fn search<'a>(q: Option<&'a str>) -> SearchParams<'a> {
    SearchParams {
        q,
        street: None,
        housenumber: None,
        city: None,
        state: None,
        country_code: None,
        kind: None,
        limit: None,
        h3_res: None,
        bias: BiasInput::Absent,
    }
}

#[test]
fn a_search_is_set_up() {
    let mut p = search(Some("12 Smith St"));
    p.country_code = Some("AU, nz");
    p.kind = Some("street");
    let setup = search_request(&p, true).ok().unwrap();
    assert_eq!(setup.kind, Some(2));
    assert_eq!(setup.limit, 10);
    assert_eq!(setup.countries.len(), 2);
    assert_eq!(setup.housenumber.as_deref(), Some("12"));
    assert!(!setup.fast_path);
    let q = country_query(&p, &setup, Some("AU"));
    assert_eq!((q.q, q.country_code, q.kind), (Some("12 Smith St"), Some("AU"), Some(2)));
}

#[test]
fn one_exact_name_may_answer_at_once() {
    let mut p = search(Some("Sydney"));
    p.limit = Some(1);
    assert!(search_request(&p, true).ok().unwrap().fast_path);
    p.bias = BiasInput::Given;
    assert!(!search_request(&p, true).ok().unwrap().fast_path);
}

#[test]
fn a_search_is_refused_for_a_reason() {
    assert_eq!(search_request(&search(Some("x")), false).err().unwrap().status, NOT_IMPLEMENTED);
    let long = "x".repeat(600);
    assert_eq!(search_request(&search(Some(&long)), true).err().unwrap().status, BAD_REQUEST);
    let mut p = search(Some("x"));
    p.kind = Some("planet");
    let refused = search_request(&p, true).err().unwrap();
    assert_eq!(refused.status, BAD_REQUEST);
    assert_eq!(refused.message, "invalid kind \"planet\"; expected 'place' or 'street'");
    p.kind = None;
    p.bias = BiasInput::Half;
    assert!(search_request(&p, true).err().unwrap().message.contains("together"));
}

#[test]
fn codes_are_split_and_read() {
    assert_eq!(split_codes(Some("au, nz")).len(), 2);
    assert!(split_codes(None).is_empty());
    assert_eq!(parse_country_code_bytes("au"), Some(*b"AU"));
    assert_eq!(parse_country_code_bytes("aus"), None);
    assert_eq!(cc_to_string(b"AU"), "AU");
    assert_eq!(check_text_opt("q", None, 1), None);
    assert!(check_text_opt("q", Some("ab"), 1).is_some());
    assert!(kind_matches(None, 3) && kind_matches(Some(1), 1) && !kind_matches(Some(1), 2));
}

#[test]
fn a_reverse_request_checks_its_language() {
    assert_eq!(reverse_request(Some("en"), Some("7")).ok(), Some(vec![7]));
    assert_eq!(reverse_request(Some(&"x".repeat(17)), None).err().unwrap().status, BAD_REQUEST);
}

#[test]
fn an_address_is_validated() {
    let p = ValidateParams {
        housenumber: Some("12"),
        street: "Smith St",
        city: "Sydney",
        state: None,
        postcode: None,
        country_code: "AU",
        h3_res: None,
    };
    assert_eq!(validate_request(&p, true).ok(), Some(vec![]));
    assert_eq!(validate_request(&p, false).err().unwrap().status, NOT_IMPLEMENTED);
    let q = validate_query(&p);
    assert_eq!((q.street, q.city, q.country_code), (Some("Smith St"), Some("Sydney"), Some("AU")));
    assert!(validation_verdict(true, true).verified);
    assert!(!validation_verdict(true, false).verified);
}

#[test]
fn suggestions_are_set_up() {
    let p = AutocompleteParams { q: "syd", country_code: Some("au"), limit: Some(3), h3_res: None };
    let setup = autocomplete_request(&p, true).ok().unwrap();
    assert_eq!((setup.limit, setup.country), (3, Some(*b"au")));
    assert_eq!(autocomplete_request(&p, false).err().unwrap().status, NOT_IMPLEMENTED);
}

#[test]
fn what_lies_near_is_asked_for() {
    let mut p = NearbyParams { q: None, kind: Some("poi"), country_code: None, limit: Some(5), h3_res: None, out_of_range: None };
    let setup = nearby_request(&p, true).ok().unwrap();
    assert_eq!((setup.kind, setup.limit), (Some(3), 5));
    p.out_of_range = Some("lat");
    assert!(nearby_request(&p, true).err().unwrap().message.starts_with("lat"));
}

#[test]
fn network_addresses_are_checked() {
    assert!(ip_request(Some("1.1.1.1"), None, true, true).is_ok());
    assert_eq!(ip_request(Some("x"), None, false, true).err().unwrap().status, BAD_REQUEST);
    assert_eq!(ip_not_found("1.1.1.1").status, NOT_FOUND);
    assert_eq!(search_failed("search", "io").status, INTERNAL_SERVER_ERROR);
}

fn call<'a>(q: &'a str) -> SearchCall<'a> {
    SearchCall {
        q,
        street: "",
        housenumber: "",
        city: "",
        state: "",
        country_code: "",
        kind: "",
        limit: 0,
        h3_res: &[],
    }
}

#[test]
fn calls_share_the_rules_of_requests() {
    assert_eq!(empty_to_none(""), None);
    assert_eq!(empty_to_none("x"), Some("x"));
    assert_eq!(reverse_call("en", &[7]).ok(), Some(vec![7]));
    assert_eq!(reverse_call(&"x".repeat(17), &[]).err().unwrap().code, RpcCode::InvalidArgument);
    assert_eq!(h3_call(&[]).err().unwrap().code, RpcCode::InvalidArgument);
    assert_eq!(no_cell().code, RpcCode::InvalidArgument);
    let setup = search_call(&call("12 Smith St"), true).ok().unwrap();
    assert_eq!(setup.query.q, Some("12 Smith St"));
    assert_eq!(setup.query.limit, 10);
    assert!(search_call(&call("x"), false).is_err());
    assert_eq!(parse_cc("au"), Some(*b"AU"));
    assert_eq!(parse_cc(""), None);
}

#[test]
fn a_call_needs_its_fields() {
    let mut c = ValidateCall {
        housenumber: "",
        street: "Smith St",
        city: "Sydney",
        state: "",
        postcode: "",
        country_code: "AU",
        h3_res: &[],
    };
    assert!(validate_call(&c, true).is_ok());
    assert_eq!(validate_call_query(&c).street, Some("Smith St"));
    c.street = "";
    assert_eq!(validate_call(&c, true).err().unwrap().code, RpcCode::InvalidArgument);
    assert!(call_verdict(true, true).0);
    let s = autocomplete_call("syd", "au", 0, &[], true).ok().unwrap();
    assert_eq!((s.limit, s.country), (10, Some(*b"au")));
    assert!(ip_call("", &[], true, false, true).is_err());
    assert!(ip_call("", &[], true, true, true).is_ok());
}

#[test]
fn a_message_holds_the_address() {
    let details = AddressDetails { road: Some("Main Street"), house_number: Some("10".to_string()), ..AddressDetails::default() };
    let m = into_pb_details(&details, Some("12"));
    assert_eq!((m.road.as_str(), m.house_number.as_str(), m.city.as_str()), ("Main Street", "12", ""));
    let a = Address {
        display_name: Some("10 Main Street".to_string()),
        address: details,
        confidence: Some(Confidence::Exact),
        h3: Some(vec![H3Entry { res: "9".to_string(), cell: "8".to_string() }]),
        poi: None,
    };
    let m = into_pb_address(&a);
    assert_eq!((m.display_name.as_str(), m.confidence.as_str()), ("10 Main Street", "exact"));
    assert_eq!(m.address.house_number, "10");
}

#[test]
fn answers_are_refined_and_counted() {
    assert!(refines(2, Some("12")));
    assert!(!refines(1, Some("12")) || !refines(2, None));
    assert_eq!(result_house_number(Some("12"), Some("10")).as_deref(), Some("12"));
    assert_eq!(result_house_number(None, None), None);
    assert_eq!(counted_country(Some("AU"), Some("NZ")), Some("AU"));
    assert_eq!(counted_country(None, Some("NZ")), Some("NZ"));
}

#[test]
fn the_state_of_the_service_is_reported() {
    let l = LoadedIndexes {
        postcode_lookup: true,
        gnaf: false,
        open_addresses: Some(&[*b"au"]),
        i18n_names: false,
        autocomplete: None,
        forward: None,
        forward_default: false,
        ip_geo: true,
    };
    let report = index_report(&l);
    assert!(report.iter().any(|s| s.loaded) && report.iter().any(|s| !s.loaded));
    assert_eq!(readiness(true).0, 200);
    assert_eq!(readiness(false).0, 503);
    assert!(should_reload(Some(1), Some(2)));
    assert!(!should_reload(Some(2), Some(2)));
}

#[test]
fn settings_have_defaults() {
    let args: Vec<String> = ["server", "--port", "8080"].iter().map(|s| s.to_string()).collect();
    assert_eq!(arg_value(&args, "--port"), Some("8080"));
    assert_eq!(arg_value(&args, "--host"), None);
    assert_eq!(number_setting(Some("7"), 3), 7);
    assert_eq!(number_setting(Some("x"), 3), 3);
    assert_eq!(mmdb_path(Some("/x.mmdb"), "/d"), "/x.mmdb");
    assert_eq!(mmdb_path(None, "/d"), "/d/GeoLite2-City.mmdb");
    assert!(marker_path(None, "/d").starts_with("/d/"));
}

#[test]
fn builds_are_told_apart() {
    assert_eq!(git_sha(Some("abc")), "abc");
    assert_eq!(git_dirty_state(Some("false")), GitDirty::Clean);
    assert_eq!(git_dirty_state(None), GitDirty::Unknown);
    assert_eq!(dirty_flags(GitDirty::Clean), (false, true));
    assert_eq!(manifest_path("/d", "build-forward-index"), "/d/manifest_build-forward-index.json");
    let names = reverse_file_names();
    assert_eq!(names.len(), 21);
    assert!(verify_reverse("/d", None, &[0; 21], 0).is_err());
}

#[test]
fn coordinates_must_be_in_range() {
    let bits = |x: f64| Some(x.to_bits());
    assert!(matches!(bias_input(None, None), BiasInput::Absent));
    assert!(matches!(bias_input(bits(1.0), None), BiasInput::Half));
    assert!(matches!(bias_input(bits(-90.0), bits(180.0)), BiasInput::Given));
    assert!(matches!(bias_input(bits(90.1), bits(181.0)), BiasInput::OutOfRange("bias_lat")));
    assert!(matches!(bias_input(bits(0.0), bits(-180.5)), BiasInput::OutOfRange("bias_lng")));
    assert!(matches!(bias_input(bits(f64::NAN), bits(0.0)), BiasInput::OutOfRange("bias_lat")));
    let near = |lat: f64, lng: f64, km: f64| nearby_out_of_range(lat.to_bits(), lng.to_bits(), km.to_bits());
    assert_eq!(near(90.0, -180.0, 100.0), None);
    assert_eq!(near(-90.5, 0.0, 1.0), Some("lat"));
    assert_eq!(near(0.0, f64::INFINITY, 1.0), Some("lng"));
    assert_eq!(near(0.0, 0.0, 0.0), Some("radius_km"));
    assert_eq!(near(0.0, 0.0, 100.5), Some("radius_km"));
    assert_eq!(near(0.0, 0.0, f64::NAN), Some("radius_km"));
}
