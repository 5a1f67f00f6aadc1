use query_server::limits::check;
use query_server::metrics::canonical_country;

#[test]
fn check_passes_within_cap() {
    assert!(check("q", "sydney", 64).is_ok());
    assert!(check("q", "", 64).is_ok());
    assert!(check("q", &"a".repeat(64), 64).is_ok());
}

#[test]
fn check_rejects_over_cap() {
    let err = check("q", &"a".repeat(65), 64).unwrap_err();
    assert!(err.contains("q"));
    assert!(err.contains("65"));
    assert!(err.contains("64"));
}

#[test]
fn check_uses_byte_length_not_char_length() {
    // "é" is 2 UTF-8 bytes. 5 of them = 10 bytes.
    let s = "é".repeat(5);
    assert_eq!(s.len(), 10);
    assert!(check("q", &s, 9).is_err());
    assert!(check("q", &s, 10).is_ok());
}

#[test]
fn canonical_country_lowercases_two_letter() {
    assert_eq!(canonical_country(Some("AU")), "au");
    assert_eq!(canonical_country(Some("au")), "au");
    assert_eq!(canonical_country(Some(" Us ")), "us");
}

#[test]
fn canonical_country_rejects_non_alpha_two() {
    assert_eq!(canonical_country(Some("AUS")), "unknown");
    assert_eq!(canonical_country(Some("a")), "unknown");
    assert_eq!(canonical_country(Some("12")), "unknown");
    assert_eq!(canonical_country(Some("")), "unknown");
    assert_eq!(canonical_country(None), "unknown");
}

#[test]
fn canonical_country_returns_static_str() {
    let a = canonical_country(Some("AU"));
    let b = canonical_country(Some("au"));
    assert_eq!(a, b);
    assert_eq!(a, "au");
}

#[test]
fn the_message_names_both_lengths() {
    assert_eq!(
        check("street", "abcdef", 5),
        Err("street: input is 6 bytes; max allowed is 5".to_string())
    );
}

#[test]
fn a_label_is_its_own_label() {
    for raw in ["AU", " nz ", "xyz", ""] {
        let once = canonical_country(Some(raw));
        assert_eq!(canonical_country(Some(&once)), once);
    }
}
