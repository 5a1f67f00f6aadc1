use query_server::openaddresses::{normalise_code, oa_prefix, parse_oa_country_prefix};
use query_server::postcode::{lookup_hash, normalise_locality, write_lookup, PostcodeLookup, PostcodeRecord, RawEntry};
use query_server::postcode_build::{modal_code, psv_fields, CodeCount, PostcodeBuilder};

#[test]
fn parses_valid_oa_filenames() {
    assert_eq!(parse_oa_country_prefix("oa_au_points.bin"), Some(*b"au"));
    assert_eq!(parse_oa_country_prefix("oa_us_points.bin"), Some(*b"us"));
    assert_eq!(parse_oa_country_prefix("oa_us_cells.bin"), Some(*b"us"));
    assert_eq!(
        parse_oa_country_prefix("oa_us_points.schema.json"),
        Some(*b"us")
    );
    // Upper-case input → normalised to lower.
    assert_eq!(parse_oa_country_prefix("oa_FR_points.bin"), Some(*b"fr"));
}

#[test]
fn rejects_non_oa_filenames() {
    assert_eq!(parse_oa_country_prefix("gnaf_points.bin"), None);
    assert_eq!(parse_oa_country_prefix("oa_usa_points.bin"), None);
    assert_eq!(parse_oa_country_prefix("oa_u1_points.bin"), None);
    assert_eq!(parse_oa_country_prefix("oa__points.bin"), None);
}

#[test]
fn oa_prefix_roundtrips() {
    assert_eq!(oa_prefix(*b"AU"), "oa_au");
    assert_eq!(oa_prefix(*b"us"), "oa_us");
}

#[test]
fn code_normalisation_is_case_insensitive() {
    assert_eq!(normalise_code(b"AU"), *b"au");
    assert_eq!(normalise_code(b"aU"), *b"au");
}

#[test]
fn normalise_is_diacritic_and_punctuation_agnostic() {
    assert_eq!(normalise_locality("St. Kilda"), "st kilda");
    assert_eq!(normalise_locality("St Kilda"), "st kilda");
    assert_eq!(normalise_locality("  Baulkham   Hills  "), "baulkham hills");
    assert_eq!(normalise_locality("Cañon City"), "canon city");
}

#[test]
fn hash_is_deterministic_across_case_and_punctuation() {
    let a = lookup_hash("NSW", "Baulkham Hills");
    let b = lookup_hash("nsw", "baulkham hills");
    let c = lookup_hash("NSW", "Baulkham  Hills"); // double space
    assert_eq!(a, b);
    assert_eq!(a, c);
}

#[test]
fn different_states_with_same_locality_hash_differently() {
    // Some locality names exist in multiple states — state abbr must
    // disambiguate.
    let nsw = lookup_hash("NSW", "Armidale");
    let sa = lookup_hash("SA", "Armidale");
    assert_ne!(nsw, sa);
}

fn fields(line: &str) -> Vec<String> {
    psv_fields(line)
}

#[test]
fn a_written_postcode_is_found() {
    let records = vec![
        PostcodeRecord { key_hash: lookup_hash("NSW", "Sydney"), postcode: "2000".to_string() },
        PostcodeRecord { key_hash: lookup_hash("VIC", "Melbourne"), postcode: "3000".to_string() },
    ];
    let files = write_lookup(&records);
    assert_eq!(files.collisions, 0);
    let lookup = PostcodeLookup::open(&files.entries, &files.strings).unwrap();
    assert_eq!(lookup.postcode("nsw", "SYDNEY"), Some("2000"));
    assert_eq!(lookup.postcode("VIC", "Melbourne"), Some("3000"));
    assert_eq!(lookup.postcode("QLD", "Brisbane"), None);
    assert!(PostcodeLookup::open(&files.entries[1..], &files.strings).is_none());
}

#[test]
fn the_key_of_a_locality_is_fixed() {
    assert_eq!(lookup_hash(" nsw ", "Sydney"), lookup_hash("NSW", "sydney"));
    assert_ne!(lookup_hash("NSW", "Sydney"), lookup_hash("NSW", "Perth"));
}

#[test]
fn an_entry_is_written_in_little_endian() {
    let e = RawEntry { key_hash: 0x0102030405060708, postcode_offset: 9, _pad: 0 };
    assert_eq!(e.to_le_bytes(), [8, 7, 6, 5, 4, 3, 2, 1, 9, 0, 0, 0, 0, 0, 0, 0]);
}

#[test]
fn the_most_frequent_code_stands_for_a_locality() {
    let mut b = PostcodeBuilder::new();
    b.add_state(&fields("1|2001-01-01||New South Wales|NSW"));
    b.add_locality(&fields("L1|2001-01-01||SYDNEY|||1"));
    assert_eq!(fields("a||c"), vec!["a", "", "c"]);
    let mut address: Vec<String> = vec![String::new(); 27];
    address[24] = "L1".to_string();
    for code in ["2001", "2000", "2000"] {
        address[26] = code.to_string();
        b.add_address(&address);
    }
    let records = b.records();
    assert_eq!(records.len(), 1);
    assert_eq!(records[0].postcode, "2000");
    assert_eq!(records[0].key_hash, lookup_hash("NSW", "SYDNEY"));
    let codes = [
        CodeCount { code: "2001".to_string(), count: 2 },
        CodeCount { code: "2000".to_string(), count: 5 },
    ];
    assert_eq!(modal_code(&codes), Some(1));
    assert_eq!(modal_code(&[]), None);
    assert!(PostcodeBuilder::new().records().is_empty());
}

#[test]
fn a_retired_address_counts_for_nothing() {
    let mut b = PostcodeBuilder::new();
    b.add_state(&fields("1|2001-01-01||New South Wales|NSW"));
    b.add_locality(&fields("L1|2001-01-01||SYDNEY|||1"));
    let mut address: Vec<String> = vec![String::new(); 27];
    address[24] = "L1".to_string();
    address[26] = "2000".to_string();
    address[3] = "2020-01-01".to_string();
    b.add_address(&address);
    assert!(b.tallies.is_empty() && b.records().is_empty());
    assert_eq!(b.rows, 0);
    address[3] = String::new();
    b.add_address(&address);
    assert_eq!((b.tallies.len(), b.records().len(), b.rows), (1, 1, 1));
}
