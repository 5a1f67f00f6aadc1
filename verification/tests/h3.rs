use query_server::h3_cell::{build_h3_map, build_h3_numbers, parse_h3_res, validate_h3_res, H3Answer, H3Entry};
use query_server::requests::{h3_request, resolve_h3_res, BAD_REQUEST, NO_RESOLUTION};

/// The cell of a coordinate at a resolution, where there is one.
fn h3_at(lat: f64, lng: f64, res: u8) -> Option<String> {
    let resolution = h3o::Resolution::try_from(res).ok()?;
    let coord = h3o::LatLng::new(lat, lng).ok()?;
    Some(coord.to_cell(resolution).to_string())
}

/// One answer per asked resolution.
fn answers(lat: f64, lng: f64, resolutions: &[u8]) -> Vec<H3Answer> {
    resolutions.iter().map(|r| H3Answer { res: *r, cell: h3_at(lat, lng, *r) }).collect()
}

fn has_key(map: &[H3Entry], key: &str) -> bool {
    map.iter().any(|e| e.res == key)
}

#[test]
fn parse_single_resolution() {
    assert_eq!(parse_h3_res("9"), Ok(vec![9]));
}

#[test]
fn parse_multi_resolution() {
    assert_eq!(parse_h3_res("7,9,12"), Ok(vec![7, 9, 12]));
}

#[test]
fn parse_with_whitespace_tolerated() {
    assert_eq!(parse_h3_res(" 7 , 9 , 12 "), Ok(vec![7, 9, 12]));
}

#[test]
fn parse_empty_string_yields_empty_vec() {
    assert_eq!(parse_h3_res(""), Ok(vec![]));
    assert_eq!(parse_h3_res("  "), Ok(vec![]));
}

#[test]
fn parse_rejects_negative() {
    assert!(parse_h3_res("-1").is_err());
}

#[test]
fn parse_rejects_out_of_range() {
    let err = parse_h3_res("16").unwrap_err();
    assert!(err.contains("0–15") || err.contains("out of range"));
}

#[test]
fn parse_rejects_non_integer() {
    assert!(parse_h3_res("abc").is_err());
    assert!(parse_h3_res("9.5").is_err());
}

#[test]
fn parse_rejects_too_many_resolutions() {
    // MAX_RESOLUTIONS = 4; asking for 5 is a 400.
    assert!(parse_h3_res("1,2,3,4,5").is_err());
}

#[test]
fn parse_accepts_resolution_0_and_15_boundaries() {
    assert_eq!(parse_h3_res("0"), Ok(vec![0]));
    assert_eq!(parse_h3_res("15"), Ok(vec![15]));
}

#[test]
fn empty_resolutions_returns_none() {
    assert!(build_h3_map(&answers(-33.87, 151.21, &[])).is_none());
}

#[test]
fn single_resolution_produces_one_key() {
    let map = build_h3_map(&answers(-33.87, 151.21, &[9])).expect("map");
    assert_eq!(map.len(), 1);
    assert!(has_key(&map, "9"));
    assert_eq!(Some(map[0].cell.clone()), h3_at(-33.87, 151.21, 9));
}

#[test]
fn multi_resolution_produces_sorted_keys() {
    let map = build_h3_map(&answers(-33.87, 151.21, &[12, 7, 9])).expect("map");
    let keys: Vec<&String> = map.iter().map(|e| &e.res).collect();
    assert_eq!(keys, vec!["12", "7", "9"]);
    assert_eq!(map.len(), 3);
}

#[test]
fn duplicate_resolutions_are_deduped() {
    let map = build_h3_map(&answers(-33.87, 151.21, &[9, 9, 9])).expect("map");
    assert_eq!(map.len(), 1);
}

#[test]
fn bad_resolution_in_list_skipped_but_others_survive() {
    let map = build_h3_map(&answers(-33.87, 151.21, &[9, 20])).expect("map");
    assert_eq!(map.len(), 1);
    assert!(has_key(&map, "9"));
}

#[test]
fn all_resolutions_bad_returns_none() {
    let map = build_h3_map(&answers(-33.87, 151.21, &[16, 20, 100]));
    assert!(map.is_none());
}

#[test]
fn number_lists_obey_the_same_rule() {
    assert_eq!(validate_h3_res(&[7, 9, 12]), Ok(vec![7, 9, 12]));
    assert_eq!(validate_h3_res(&[]), Ok(vec![]));
    assert!(validate_h3_res(&[16]).is_err());
    assert!(validate_h3_res(&[1, 2, 3, 4, 5]).is_err());
}

#[test]
fn a_refused_token_is_quoted() {
    let err = parse_h3_res("ab\"c").unwrap_err();
    assert!(err.contains("\"ab\\\"c\""), "{err}");
}

#[test]
fn numbered_cells_keep_what_resolved() {
    let cells = build_h3_numbers(&answers(-33.87, 151.21, &[9, 20, 7]));
    let kept: Vec<u32> = cells.iter().map(|c| c.0).collect();
    assert!(kept.contains(&9) && kept.contains(&7) && kept.len() == 2);
}

#[test]
fn a_cell_request_needs_a_resolution() {
    let refused = h3_request("").err().unwrap();
    assert_eq!((refused.status, refused.message.as_str()), (BAD_REQUEST, NO_RESOLUTION));
    assert_eq!(h3_request("9").ok(), Some(vec![9]));
    assert_eq!(resolve_h3_res(None).ok(), Some(vec![]));
    assert_eq!(resolve_h3_res(Some("99")).err().unwrap().status, BAD_REQUEST);
}
