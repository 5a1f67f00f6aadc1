use query_server::abbreviations::{fold_place_abbreviations, normalise_prefix};
use query_server::articles::strip_leading_article;
use query_server::autocomplete::parse_fst_prefix;
use query_server::fold::{ascii_fold_char, normalise};
use query_server::postcode::normalise_locality;

#[test]
fn normalises_prefixes() {
    assert_eq!(normalise_prefix("Éliz"), "eliz");
    assert_eq!(normalise_prefix("  MAIN  St  "), "main street");
    assert_eq!(normalise_prefix(""), "");
}

#[test]
fn collapses_saint_mount_fort_when_leading() {
    // Saint/St/Sainte/Ste → st when leading.
    assert_eq!(normalise_prefix("Saint Kilda"), "st kilda");
    assert_eq!(normalise_prefix("St Kilda"), "st kilda");
    assert_eq!(normalise_prefix("Sainte-Foy"), "st foy");
    assert_eq!(normalise_prefix("Ste-Foy"), "st foy");

    // Mount/Mt → mt when leading.
    assert_eq!(normalise_prefix("Mount Pleasant"), "mt pleasant");
    assert_eq!(normalise_prefix("Mt Pleasant"), "mt pleasant");

    // Fort/Ft → ft when leading.
    assert_eq!(normalise_prefix("Fort Worth"), "ft worth");
    assert_eq!(normalise_prefix("Ft Worth"), "ft worth");

    // Trailing St is Street. Mt and Ft remain as written.
    assert_eq!(normalise_prefix("Hampton St"), "hampton street");
    assert_eq!(normalise_prefix("Camp Mt"), "camp mt");

    // Single-token queries are returned unchanged (no position to apply).
    assert_eq!(normalise_prefix("Saint"), "saint");
    assert_eq!(normalise_prefix("Mt"), "mt");

    // Three+ tokens: the leading saint still collapses.
    assert_eq!(normalise_prefix("Saint James Court"), "st james court");
    assert_eq!(normalise_prefix("St James Court"), "st james court");
}

#[test]
fn parses_fst_filenames() {
    assert_eq!(parse_fst_prefix("fst_au.fst"), Some(*b"au"));
    assert_eq!(parse_fst_prefix("fst_au.bin"), Some(*b"au"));
    assert_eq!(parse_fst_prefix("fst_au_strings.bin"), Some(*b"au"));
    assert_eq!(parse_fst_prefix("fst_US.fst"), Some(*b"us"));
    assert_eq!(parse_fst_prefix("nope.fst"), None);
    assert_eq!(parse_fst_prefix("fst_us.txt"), None);
}

#[test]
fn galician_a_fonsagrada() {
    assert_eq!(
        strip_leading_article("A Fonsagrada"),
        Some("Fonsagrada".into())
    );
    assert_eq!(strip_leading_article("A Coruña"), Some("Coruña".into()));
}

#[test]
fn english_the_hague() {
    assert_eq!(strip_leading_article("The Hague"), Some("Hague".into()));
    assert_eq!(strip_leading_article("the Bronx"), Some("Bronx".into()));
}

#[test]
fn french_le_havre_les_baux() {
    assert_eq!(strip_leading_article("Le Havre"), Some("Havre".into()));
    assert_eq!(
        strip_leading_article("La Rochelle"),
        Some("Rochelle".into())
    );
    assert_eq!(
        strip_leading_article("Les Baux-de-Provence"),
        Some("Baux-de-Provence".into())
    );
}

#[test]
fn spanish_el_la_los_las() {
    assert_eq!(
        strip_leading_article("El Escorial"),
        Some("Escorial".into())
    );
    assert_eq!(strip_leading_article("La Coruña"), Some("Coruña".into()));
    assert_eq!(strip_leading_article("Los Angeles"), Some("Angeles".into()));
    assert_eq!(strip_leading_article("Las Vegas"), Some("Vegas".into()));
}

#[test]
fn italian_apostrophe_elision() {
    assert_eq!(strip_leading_article("L'Aquila"), Some("Aquila".into()));
    assert_eq!(
        strip_leading_article("L\u{2019}Aigle"),
        Some("Aigle".into())
    ); // Unicode apostrophe
}

#[test]
fn german_dutch_welsh() {
    assert_eq!(strip_leading_article("Der Spiegel"), Some("Spiegel".into()));
    assert_eq!(strip_leading_article("De Wolden"), Some("Wolden".into()));
    assert_eq!(strip_leading_article("Y Fenni"), Some("Fenni".into()));
    assert_eq!(
        strip_leading_article("Yr Wyddgrug"),
        Some("Wyddgrug".into())
    );
}

#[test]
fn no_article_no_strip() {
    assert_eq!(strip_leading_article("Madrid"), None);
    assert_eq!(strip_leading_article("Berlin"), None);
    assert_eq!(strip_leading_article("Paris"), None);
    // Single-token names where the only token happens to be an
    // article are also returned as None — there's nothing to strip.
    assert_eq!(strip_leading_article("La"), None);
    assert_eq!(strip_leading_article(""), None);
}

#[test]
fn case_insensitive_match() {
    assert_eq!(strip_leading_article("LA Habana"), Some("Habana".into()));
    assert_eq!(strip_leading_article("THE Bronx"), Some("Bronx".into()));
}

#[test]
fn single_characters_fold_to_ascii() {
    assert_eq!(ascii_fold_char('é'), "e");
    assert_eq!(ascii_fold_char('Ä'), "A");
    assert_eq!(ascii_fold_char('ß'), "ss");
    assert_eq!(ascii_fold_char('x'), "x");
    assert_eq!(ascii_fold_char('Ж'), "Ж");
}

#[test]
fn normal_forms_ignore_case_and_punctuation() {
    assert_eq!(normalise("SÃO  Paulo!"), "sao paulo");
    assert_eq!(normalise_prefix("st. kilda"), normalise_prefix("SAINT-KILDA"));
    assert_eq!(normalise_prefix("Москва"), "москва");
    assert_eq!(fold_place_abbreviations("mount st helens"), "mt st helens");
    let once = normalise_prefix("Mount Saint Helens");
    assert_eq!(normalise_prefix(&once), once);
}

#[test]
fn normal_forms_are_plain_words() {
    for s in ["", " -- ", "St. Kilda's  (East) 2", "MOUNT-Isa", "a"] {
        let (locality, key) = (normalise_locality(s), normalise_prefix(s));
        for n in [&locality, &key] {
            assert!(n.chars().all(|c| c.is_ascii_lowercase() || c.is_ascii_digit() || c == ' '));
            assert!(n.trim() == n && !n.contains("  "));
        }
        let letters = |t: &str| -> String { t.chars().filter(|c| c.is_ascii_alphanumeric()).collect() };
        assert_eq!(letters(&locality), letters(s).to_ascii_lowercase());
        assert_eq!(key.is_empty(), letters(s).is_empty());
        assert_eq!((normalise_locality(&locality), normalise_prefix(&key)), (locality.clone(), key.clone()));
        let upper = s.to_ascii_uppercase();
        assert_eq!((normalise_locality(&upper), normalise_prefix(&upper)), (locality, key));
    }
    assert_eq!(normalise_locality("St. Kilda's  (East) 2"), "st kilda s east 2");
}
