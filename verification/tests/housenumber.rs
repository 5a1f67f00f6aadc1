use query_server::housenumber::{housenumber_matches, parse_au_unit_address, parse_hn};

#[test]
fn exact_match_preserved() {
    assert!(housenumber_matches("42", "42"));
    assert!(housenumber_matches("42A", "42a")); // case-insensitive
    assert!(housenumber_matches("Lot 5", "lot 5"));
}

#[test]
fn query_in_stored_range() {
    assert!(housenumber_matches("256", "255-257"));
    assert!(housenumber_matches("255", "255-257"));
    assert!(housenumber_matches("257", "255-257"));
}

#[test]
fn query_outside_stored_range_does_not_match() {
    assert!(!housenumber_matches("258", "255-257"));
    assert!(!housenumber_matches("254", "255-257"));
}

#[test]
fn stored_in_query_range() {
    // User asked for 255-257 even though G-NAF only has 255.
    assert!(housenumber_matches("255-257", "255"));
    assert!(housenumber_matches("255-257", "256"));
    assert!(housenumber_matches("255-257", "257"));
}

#[test]
fn overlapping_ranges_match() {
    assert!(housenumber_matches("254-256", "255-257"));
    assert!(housenumber_matches("253-300", "255-257"));
    assert!(housenumber_matches("255-257", "256-260"));
}

#[test]
fn disjoint_ranges_do_not_match() {
    assert!(!housenumber_matches("250-254", "255-257"));
    assert!(!housenumber_matches("258-260", "255-257"));
}

#[test]
fn suffix_discipline() {
    // Bare number query → still matches suffixed stored. User
    // typed only the building number; the suffix is sub-address
    // detail they didn't specify, so any sibling suffix is a
    // reasonable hit (geographic-nearest tiebreak picks one).
    assert!(housenumber_matches("42", "42A"));
    assert!(housenumber_matches("42", "42B"));

    // Suffixed query against suffixed stored: only the same
    // suffix matches. Distinct cadastral parcels in G-NAF (often
    // separate duplex units) — returning the wrong one is wrong.
    assert!(housenumber_matches("1327A", "1327A"));     // exact
    assert!(housenumber_matches("1327a", "1327A"));     // case-insensitive exact
    assert!(!housenumber_matches("1327A", "1327B"));    // suffix mismatch
    assert!(!housenumber_matches("1327B", "1327A"));    // symmetric

    // Suffixed query against bare-number stored: no match.
    // 42 and 42A are typically distinct G-NAF parcels (the original
    // house got subdivided into 42 + 42A); returning 42 when the
    // user asked for 42A is wrong.
    assert!(!housenumber_matches("42A", "42"));

    // Suffixed query against a TRUE range: match if the digit
    // falls inside the range. The range form denotes a span of
    // building numbers regardless of any unit-letter quirks
    // ("827a inside 820-830" is a reasonable building-level hit).
    assert!(housenumber_matches("827a", "820-830"));
    assert!(housenumber_matches("827a", "827-830"));
    assert!(!housenumber_matches("827a", "820-826")); // out of range

    // Both sides suffixed AND the range is annotated with the
    // same suffix on both ends (rare but seen): still matches
    // when the digit is in range.
    assert!(housenumber_matches("1327A", "1320A-1340A"));
}

#[test]
fn non_numeric_falls_through_to_exact_only() {
    // "Lot 5" has no leading digits — parse_range returns None,
    // so only exact match would apply.
    assert!(!housenumber_matches("5", "Lot 5"));
    assert!(!housenumber_matches("Lot 5", "5"));
    // But exact match still works.
    assert!(housenumber_matches("Lot 5", "lot 5"));
}

#[test]
fn reversed_range_input_normalises() {
    // No real dataset emits "257-255" but freeform queries might.
    assert!(housenumber_matches("256", "257-255"));
    assert!(housenumber_matches("257-255", "256"));
}

#[test]
fn empty_inputs() {
    assert!(housenumber_matches("", "")); // trivially eq
    assert!(!housenumber_matches("42", ""));
    assert!(!housenumber_matches("", "42"));
}

#[test]
fn parse_overflow_returns_none() {
    // Beyond u32::MAX — checked arithmetic returns None rather
    // than wrapping. A 12-digit "housenumber" from corrupt input
    // shouldn't crash the matcher.
    assert!(parse_hn("999999999999").is_none());
}

#[test]
fn parse_au_unit_address_basic() {
    assert_eq!(parse_au_unit_address("3/827a"), Some(("3", "827a")));
    assert_eq!(parse_au_unit_address("12/45"), Some(("12", "45")));
    assert_eq!(parse_au_unit_address("12 / 45"), Some(("12", "45")));
    assert_eq!(parse_au_unit_address(" 3 / 827a "), Some(("3", "827a")));
}

#[test]
fn parse_au_unit_address_rejects_non_pattern() {
    // Word prefix → not the AU shorthand (let OSM word-prefix
    // normaliser handle "Apt 3/45").
    assert_eq!(parse_au_unit_address("Apt 3/45"), None);
    // Range, not unit/hn.
    assert_eq!(parse_au_unit_address("12-14"), None);
    // No slash.
    assert_eq!(parse_au_unit_address("827a"), None);
    // RHS doesn't start with a digit.
    assert_eq!(parse_au_unit_address("3/A45"), None);
    // Missing side.
    assert_eq!(parse_au_unit_address("/45"), None);
    assert_eq!(parse_au_unit_address("3/"), None);
}

#[test]
fn a_unit_has_exactly_one_slash() {
    assert_eq!(parse_au_unit_address("3/827/2"), None);
    assert_eq!(parse_au_unit_address("3//827"), None);
}

#[test]
fn numbers_are_read_with_their_range_and_suffix() {
    let plain = parse_hn("42").unwrap();
    assert_eq!((plain.first, plain.last, plain.suffix.as_str()), (42, 42, ""));
    let suffixed = parse_hn("42A").unwrap();
    assert_eq!((suffixed.first, suffixed.last, suffixed.suffix.as_str()), (42, 42, "A"));
    let range = parse_hn("257-255").unwrap();
    assert_eq!((range.first, range.last), (255, 257));
}
