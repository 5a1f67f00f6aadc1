use query_server::automaton::{CountryPrefixAutomaton, CpaState};
use query_server::autocomplete::{AutocompleteCountry, UnifiedAutocomplete, KIND_PLACE, KIND_POI, KIND_STREET};
use query_server::country_list::{country_dir, parse_country_list, skip_list, CountryFilter};
use query_server::csv::{is_csv_file, oa_row, parse_csv_line, CsvRow, OaOutcome};
use query_server::forward::{canonicalise_phrase, canonicalise_state, parse_freeform_query, tokenize_user_input};
use query_server::forward_search::{
    parse_country_code, parse_tantivy_country_prefix, rerank, search_clauses, search_limit, search_plan, Clause,
    ForwardIndexes, IndexChoice, SearchField, SearchRun, StructuredQuery,
};
use query_server::fst_map::{write_map, FstMap};
use query_server::gnaf_build::{build_housenumber, geocode_row, is_table_file, title_case, GnafTables, JoinOutcome, PsvTable};
use query_server::name_build::{CountryIndexes, NameFilePaths};
use query_server::name_candidates::{Classified, Layout};
use query_server::name_files::NameFiles;
use query_server::name_index::{NameCandidate, NameIndex};
use query_server::name_unified::{unified_files, CountryNames};
use query_server::postal::{is_wof_header, parse_wof_row, Postal, PostalBook, WofFault, WOF_HEADER};
use query_server::requests::SearchSetup;
use query_server::search_flow::{answer_order, exact_scope, quick_answer, search_countries, within_radius, ExactScope};
use query_server::suggest;

fn name<'a>(name: &'a str, kind: u8, rank: u8, suburb: Option<&'a str>) -> NameCandidate<'a> {
    let (lat, lng) = (1.5f32.to_bits(), 2.5f32.to_bits());
    NameCandidate { name, aliases: Vec::new(), spellings: Vec::new(), kind, rank, lat, lng, suburb }
}

fn index_of(cands: &[NameCandidate<'_>]) -> NameIndex {
    let mut index = NameIndex::new();
    for c in cands {
        assert!(index.has_room(c));
        index.ingest(c);
    }
    index
}

fn country(files: &NameFiles) -> AutocompleteCountry<'_> {
    AutocompleteCountry { map: FstMap::open(files.fst.clone()).unwrap(), entries: &files.entries, strings: &files.strings }
}

fn sample() -> NameIndex {
    index_of(&[
        name("Sydney", KIND_PLACE, 16, None),
        name("Sydenham", KIND_PLACE, 20, None),
        name("Sydney Street", KIND_STREET, 26, Some("Willoughby")),
        name("The Rocks", KIND_PLACE, 20, None),
    ])
}

#[test]
fn a_map_gives_back_what_was_written() {
    let pairs = vec![(b"a".to_vec(), 1u64), (b"ab".to_vec(), 2), (b"b".to_vec(), 3)];
    let map = FstMap::open(write_map(&pairs)).unwrap();
    assert_eq!(map.get(b"ab"), Some(2));
    assert_eq!(map.get(b"abc"), None);
    assert_eq!(map.next_from(b"aa"), Some((b"ab".to_vec(), 2)));
    assert_eq!(map.prefix_walk(b"a", 10), vec![(b"a".to_vec(), 1), (b"ab".to_vec(), 2)]);
    assert_eq!(map.prefix_walk(b"a", 1).len(), 1);
    assert!(FstMap::open(vec![1, 2, 3]).is_none());
    assert!(FstMap::open(vec![9; 40]).is_none());
    assert_eq!(FstMap::of_pairs(&pairs).unwrap().get(b"b"), Some(3));
}

#[test]
fn a_built_index_answers() {
    let files = sample().files();
    let names = country(&files);
    let exact = names.get_exact("SYDNEY").unwrap();
    assert_eq!((exact.name.as_str(), exact.kind, exact.rank), ("Sydney", KIND_PLACE, 16));
    assert_eq!(exact.lat, 1.5f32.to_bits());
    assert!(names.get_exact("Syd").is_none());
    let hits = names.starts_with("syd", 10);
    let got: Vec<&str> = hits.iter().map(|h| h.name.as_str()).collect();
    assert_eq!(got, vec!["Sydney", "Sydenham", "Sydney Street"]);
    assert_eq!(names.starts_with("syd", 1).len(), 1);
    assert_eq!(hits[2].suburb.as_deref(), Some("Willoughby"));
    assert_eq!(names.get_exact("rocks").unwrap().name, "The Rocks");
}

#[test]
fn the_more_prominent_name_keeps_the_key() {
    let files = index_of(&[name("Paris", KIND_PLACE, 20, None), name("Paris", KIND_PLACE, 12, None)]).files();
    assert_eq!(country(&files).get_exact("paris").unwrap().rank, 12);
}

#[test]
fn one_file_answers_for_every_country() {
    let per_country = vec![
        CountryNames { code: *b"au", index: sample() },
        CountryNames { code: *b"nz", index: index_of(&[name("Sydney", KIND_POI, 5, None)]) },
    ];
    let files = unified_files(&per_country).unwrap().unwrap();
    let map = FstMap::open(files.fst.clone()).unwrap();
    let unified = UnifiedAutocomplete::open(map, &files.entries, &files.strings);
    assert!(unified.has_country(b"au") && unified.has_country(b"nz") && !unified.has_country(b"us"));
    assert_eq!(unified.get_exact(b"AU", "sydney").unwrap().kind, KIND_PLACE);
    assert_eq!(unified.get_exact(b"NZ", "sydney").unwrap().kind, KIND_POI);
    assert_eq!(unified.starts_with(b"au", "syd", 10).len(), 3);
    assert!(unified.starts_with(b"us", "syd", 10).is_empty());
    let both = suggest::Autocomplete { unified: Some(unified), per_country: Vec::new() };
    assert!(!both.is_empty());
    assert_eq!(both.countries(), vec![*b"au", *b"nz"]);
    assert_eq!(both.search(b"nz", "syd", 5).len(), 1);
    assert_eq!(both.exact_match(b"au", "Sydenham").unwrap().name, "Sydenham");
}

#[test]
fn names_settle_the_order_of_equal_ranks() {
    let named = |n: &'static str, alias: &'static str| NameCandidate {
        aliases: vec![alias],
        ..name(n, KIND_PLACE, 20, None)
    };
    // In the order of the keys, "Zulu" comes first.
    let cands = || index_of(&[named("Zulu", "port a"), named("Alpha", "port b"), named("Mike", "port c")]);
    let files = cands().files();
    let names = country(&files);
    let got: Vec<String> = names.starts_with("port", 2).into_iter().map(|h| h.name).collect();
    assert_eq!(got, vec!["Alpha", "Mike"]);
    let per_country = vec![CountryNames { code: *b"au", index: cands() }];
    let files = unified_files(&per_country).unwrap().unwrap();
    let map = FstMap::open(files.fst.clone()).unwrap();
    let unified = UnifiedAutocomplete::open(map, &files.entries, &files.strings);
    let got: Vec<String> = unified.starts_with(b"au", "port", 1).into_iter().map(|h| h.name).collect();
    assert_eq!(got, vec!["Alpha"]);
}

#[test]
fn spellings_lead_to_the_name() {
    let cand = NameCandidate {
        spellings: vec!["Moskva".to_string(), "The Moscow".to_string(), "--".to_string()],
        ..name("Москва", KIND_PLACE, 16, None)
    };
    let index = index_of(&[cand]);
    assert_eq!(index.entries.len(), 1);
    assert_eq!(index.order.len(), 3);
    let files = index.files();
    let names = country(&files);
    assert_eq!(names.starts_with("mosk", 5)[0].name, "Москва");
    assert_eq!(names.starts_with("the mosc", 5)[0].name, "Москва");
    assert!(names.starts_with("mosc", 5).is_empty());
}

#[test]
fn a_unified_index_stores_a_text_once() {
    let per_country = vec![
        CountryNames { code: *b"au", index: sample() },
        CountryNames { code: *b"nz", index: index_of(&[name("Sydney", KIND_POI, 5, Some("Willoughby"))]) },
    ];
    let files = unified_files(&per_country).unwrap().unwrap();
    assert_eq!(files.strings.len(), 1 + 9 + 7 + 14 + 11 + 10);
    assert!(unified_files(&Vec::new()).unwrap().is_none());
}

#[test]
fn candidates_stay_with_their_country() {
    let at = |cc: &[u8; 2], name_id: u32, cand: NameCandidate<'static>| Classified { cc: *cc, cand, name_id };
    let mut all = CountryIndexes::new();
    assert!(all.add(&at(b"nz", 1, name("Perth", KIND_PLACE, 20, None))));
    assert!(all.add(&at(b"au", 2, name("Perth", KIND_PLACE, 20, Some("West")))));
    // A record as prominent has the key: it keeps it.
    assert!(all.add(&at(b"au", 3, name("Perth", KIND_PLACE, 20, Some("East")))));
    // A name without a key adds nothing.
    assert!(all.add(&at(b"au", 4, name("--", KIND_PLACE, 1, None))));
    let street = at(b"au", 5, name("Hay Street", KIND_STREET, 26, None));
    assert!(all.add_street(&street) && all.add_street(&street));
    let codes: Vec<[u8; 2]> = all.countries.iter().map(|c| c.code).collect();
    assert_eq!(codes, vec![*b"au", *b"nz"]);
    assert_eq!(all.totals(), (4, 3));
    let files = all.countries[0].index.files();
    assert_eq!(country(&files).get_exact("perth").unwrap().suburb.as_deref(), Some("West"));
    let files = all.countries[1].index.files();
    assert_eq!(country(&files).get_exact("perth").unwrap().suburb, None);
}

#[test]
fn the_automaton_matches_what_begins_right() {
    let run = |a: &CountryPrefixAutomaton<'_>, key: &[u8]| -> CpaState {
        let mut s = a.start();
        for b in key {
            s = a.accept(&s, *b);
        }
        s
    };
    let prefix = CountryPrefixAutomaton::starts_with(*b"AU", "syd");
    assert!(prefix.is_match(&run(&prefix, b"ausyd")));
    assert!(prefix.is_match(&run(&prefix, b"ausydney")));
    assert!(!prefix.is_match(&run(&prefix, b"ausy")));
    assert!(!prefix.can_match(&run(&prefix, b"nz")));
    assert!(prefix.will_always_match(&run(&prefix, b"ausydn")));
    let exact = CountryPrefixAutomaton::equals(*b"au", "syd");
    assert!(exact.is_match(&run(&exact, b"ausyd")));
    assert!(!exact.is_match(&run(&exact, b"ausydn")));
}

#[test]
fn the_automaton_goes_step_by_step() {
    let prefix = CountryPrefixAutomaton::starts_with(*b"au", "sy");
    let exact = CountryPrefixAutomaton::equals(*b"au", "sy");
    let full = CpaState::MatchingPrefix(2);
    assert_eq!(prefix.accept(&CpaState::MatchingPrefix(1), b'y'), full);
    assert_eq!(prefix.accept(&full, b'd'), CpaState::PastPrefix);
    assert_eq!(prefix.accept(&CpaState::PastPrefix, b'x'), CpaState::PastPrefix);
    assert_eq!(exact.accept(&full, b'd'), CpaState::Dead);
    assert_eq!(exact.accept(&CpaState::PastPrefix, b'x'), CpaState::Dead);
    assert_eq!(prefix.accept(&CpaState::Dead, b'a'), CpaState::Dead);
    assert_eq!(exact.accept(&CpaState::Dead, b'a'), CpaState::Dead);
}

#[test]
fn words_are_brought_to_one_form() {
    assert_eq!(tokenize_user_input("12 Smith Rd., Élan"), vec!["12", "smith", "road", "elan"]);
    assert_eq!(tokenize_user_input(" ,. "), Vec::<String>::new());
    assert_eq!(canonicalise_phrase("Smith Rd."), "Smith road");
    assert_eq!(canonicalise_phrase("  Great   Hwy "), "Great highway");
    for s in ["St. Kilda Rd.", "  Great\u{3000}Ocean  RD ", "Élan Tce..", ""] {
        let full = canonicalise_phrase(s);
        assert_eq!(canonicalise_phrase(&full), full);
        assert_eq!(tokenize_user_input(&full), tokenize_user_input(s));
    }
    assert!(canonicalise_state("nsw").is_some());
    assert_eq!(canonicalise_state("zz"), None);
}

#[test]
fn a_typed_address_is_taken_apart() {
    let p = parse_freeform_query("12 Smith Rd Sydney NSW 2000");
    assert_eq!(p.house_number.as_deref(), Some("12"));
    assert_eq!(p.postcode.as_deref(), Some("2000"));
    assert!(p.state.is_some());
    assert_eq!(p.rest, vec!["smith", "road", "sydney"]);
}

#[test]
fn clauses_say_what_is_looked_for() {
    let q = StructuredQuery { city: Some("Sydney"), country_code: Some("AU"), ..StructuredQuery::default() };
    let clauses = search_clauses(&q);
    assert!(clauses.iter().any(|c| matches!(c, Clause::Term(SearchField::CountryCode, _))));
    let free = StructuredQuery::freeform("sydney", Some(1), 5);
    let clauses = search_clauses(&free);
    assert!(clauses.iter().any(|c| matches!(c, Clause::Kind(1))));
    assert_eq!(search_limit(0), 1);
    assert_eq!(search_limit(500), 50);
}

#[test]
fn a_search_drops_one_demand_at_a_time() {
    let indexes = ForwardIndexes { countries: vec![*b"au"], has_default: true };
    assert!(!indexes.is_empty());
    assert!(matches!(indexes.pick(Some("AU")), Some(IndexChoice::Country(c)) if c == *b"au"));
    assert!(matches!(indexes.pick(Some("nz")), Some(IndexChoice::Default)));
    let q = StructuredQuery { street: Some("Smith St"), city: Some("Sydney"), state: Some("NSW"), ..StructuredQuery::default() };
    let plan = search_plan(&indexes, &q);
    assert!(plan.len() > 1);
    for pair in plan.windows(2) {
        assert!(pair[1].clauses.len() <= pair[0].clauses.len());
    }
    let mut run = SearchRun::new(&indexes, &q);
    let mut tried = 0;
    while run.current().is_some() {
        tried += 1;
        run.report(&[]);
    }
    assert_eq!(tried, plan.len());
    assert!(run.answer.is_empty());
    let mut lucky = SearchRun::new(&indexes, &q);
    lucky.report(&[1.0f32.to_bits()]);
    assert!(lucky.current().is_none());
}

#[test]
fn the_first_search_that_finds_anything_answers() {
    let indexes = ForwardIndexes { countries: vec![*b"au"], has_default: true };
    let q = StructuredQuery { q: Some("sydny"), country_code: Some("au"), limit: 2, ..StructuredQuery::default() };
    let mut run = SearchRun::new(&indexes, &q);
    let first = run.current().unwrap();
    assert!(matches!(first.index, IndexChoice::Country(c) if c == *b"au"));
    assert_eq!(first.limit, 2);
    run.report(&[]);
    assert!(matches!(run.current().unwrap().index, IndexChoice::Default));
    let scores: Vec<u32> = [1.0f32, 3.0, 2.0].iter().map(|s| s.to_bits()).collect();
    run.report(&scores);
    assert!(run.current().is_none());
    assert_eq!(run.answer, vec![1, 2]);

    // Edits are the last resort, in the index that was asked for.
    let mut run = SearchRun::new(&indexes, &q);
    let mut last = None;
    while let Some(a) = run.current() {
        let home = matches!(a.index, IndexChoice::Country(c) if c == *b"au");
        last = Some((home, a.clauses.iter().any(|c| matches!(c, Clause::FuzzyName(_)))));
        run.report(&[]);
    }
    assert_eq!(last, Some((true, true)));

    let none = ForwardIndexes { countries: Vec::new(), has_default: false };
    assert!(SearchRun::new(&none, &q).current().is_none());
}

#[test]
fn better_scores_come_first() {
    let scores: Vec<u32> = [1.0f32, 3.0, 2.0].iter().map(|s| s.to_bits()).collect();
    assert_eq!(rerank(&scores, 2), vec![1, 2]);
    assert_eq!(rerank(&scores, 9), vec![1, 2, 0]);
}

#[test]
fn country_codes_are_two_letters() {
    assert_eq!(parse_country_code("AU"), Some(*b"au"));
    assert_eq!(parse_country_code("aus"), None);
    assert_eq!(parse_tantivy_country_prefix("tantivy_AU"), Some(*b"au"));
    assert_eq!(parse_tantivy_country_prefix("other"), None);
    assert_eq!(parse_country_list("au,NZ, x"), vec![*b"au", *b"nz"]);
    let filter = CountryFilter::parse("au");
    assert!(filter.contains(b"au") && !filter.contains(b"nz"));
    assert_eq!(filter.owning_country(Some(*b"AU")), Some(*b"au"));
    assert_eq!(filter.owning_country(Some(*b"nz")), None);
    let every = CountryFilter::parse("");
    assert!(every.contains(b"nz"));
    assert_eq!(country_dir("AU", &skip_list(Some("nz"), &every), &every), Some(*b"au"));
    assert_eq!(country_dir("nz", &skip_list(Some("nz"), &every), &every), None);
    assert_eq!(country_dir("x", &skip_list(None, &every), &every), None);
    assert_eq!(country_dir("au", &skip_list(None, &every), &every), None);
    assert_eq!(country_dir("nz", &skip_list(None, &every), &every), Some(*b"nz"));
    assert_eq!(country_dir("au", &skip_list(None, &filter), &filter), Some(*b"au"));
    assert_eq!(country_dir("au", &skip_list(Some("au"), &filter), &filter), None);
}

#[test]
fn layouts_are_read_by_their_names() {
    for layout in [Layout::PerCountry, Layout::Unified, Layout::Both] {
        assert!(Layout::parse(Some(layout.name())).ok() == Some(layout));
    }
    assert!(Layout::parse(Some("neither")).is_err());
    assert!(Layout::Both.per_country() && Layout::Both.unified());
    assert_eq!(NameFilePaths::for_country("/d", b"au").fst, "/d/fst_au.fst");
    assert!(NameFilePaths::unified("/d").fst.starts_with("/d/"));
}

#[test]
fn quoted_fields_are_read() {
    assert_eq!(parse_csv_line("a,\"b,c\",\"d\"\"e\","), vec!["a", "b,c", "d\"e", ""]);
    let header: Vec<String> = ["LON", "LAT", "NUMBER", "STREET", "CITY", "POSTCODE"].iter().map(|s| s.to_string()).collect();
    let row = CsvRow { header: &header, fields: parse_csv_line("151.2,-33.8,10,Pitt St,Sydney,2000") };
    assert_eq!(row.get("STREET"), Some("Pitt St"));
    assert_eq!(row.get("UNIT"), None);
    match oa_row(&row, Some(1), Some(2)) {
        OaOutcome::Address(a) => {
            assert_eq!((a.number.as_str(), a.city.as_str(), a.postcode.as_str()), ("10", "Sydney", "2000"));
        }
        _ => panic!("expected an address"),
    }
    assert!(matches!(oa_row(&row, None, Some(2)), OaOutcome::NoCoord));
    let bare = CsvRow { header: &header, fields: parse_csv_line("151.2,-33.8,,Pitt St,Sydney,2000") };
    assert!(matches!(oa_row(&bare, Some(1), Some(2)), OaOutcome::NoNumber));
    assert!(is_csv_file("a.csv") && !is_csv_file("a.zip"));
}

fn psv(n: usize, at: &[(usize, &str)]) -> Vec<String> {
    let mut v = vec![String::new(); n];
    for (i, s) in at {
        v[*i] = s.to_string();
    }
    v
}

#[test]
fn tables_are_joined_into_addresses() {
    assert_eq!(title_case("GEORGE STREET"), "George Street");
    assert!(is_table_file("NSW_STATE_psv.psv", PsvTable::State));
    let mut t = GnafTables::new();
    t.add_state(&psv(5, &[(0, "1"), (3, "New South Wales"), (4, "NSW")]));
    assert_eq!(t.state_abbr_for_file("NSW_LOCALITY_psv.psv").as_deref(), Some("NSW"));
    assert_eq!(t.state_abbr_for_file("XX_LOCALITY_psv.psv"), None);
    let g = geocode_row(&psv(7, &[(3, "A1"), (5, "151.2"), (6, "-33.8")])).unwrap();
    assert_eq!((g.pid.as_str(), g.lng.as_str(), g.lat.as_str()), ("A1", "151.2", "-33.8"));
    assert!(geocode_row(&psv(7, &[(2, "2020-01-01"), (3, "A1")])).is_none());
    t.add_locality(&psv(4, &[(0, "L1"), (3, "SYDNEY")]));
    t.add_street(&psv(6, &[(0, "S1"), (4, "GEORGE"), (5, "STREET")]));
    let address = psv(27, &[(0, "A1"), (17, "10"), (18, "A"), (20, "14"), (22, "S1"), (24, "L1"), (26, "2000")]);
    assert_eq!(build_housenumber(&address), "10A-14");
    assert!(matches!(t.join(&address), JoinOutcome::NoGeocode));
    t.add_geocode("A1".to_string(), 5, 6);
    match t.join(&address) {
        JoinOutcome::Address(a) => {
            assert_eq!((a.lat, a.lng), (5, 6));
            assert_eq!((a.housenumber.as_str(), a.street.as_str()), ("10A-14", "George Street"));
            assert_eq!((a.locality.as_str(), a.postcode.as_str()), ("Sydney", "2000"));
        }
        _ => panic!("expected an address"),
    }
    let mut retired = address.clone();
    retired[3] = "2020-01-01".to_string();
    assert!(matches!(t.join(&retired), JoinOutcome::Skipped));
}

#[test]
fn postcodes_are_read_and_kept() {
    assert!(is_wof_header(WOF_HEADER));
    assert!(!is_wof_header("country\tpostcode"));
    let row = parse_wof_row("AU\t2000\t-33.8\t151.2").ok().unwrap();
    assert_eq!((row.cc, row.code.as_str(), row.lat.as_str()), (*b"au", "2000", "-33.8"));
    assert!(matches!(parse_wof_row("AU\t2000"), Err(WofFault::Malformed)));
    assert!(matches!(parse_wof_row("AUS\t2000\t1\t2"), Err(WofFault::Country)));
    let code = |n: &str, suburb: Option<&'static str>| Postal {
        cc: *b"au",
        name: n.to_string(),
        compact: n.to_string(),
        lat: 1,
        lng: 2,
        suburb,
    };
    let mut book = PostalBook::new();
    book.add(code("2000", Some("Sydney")));
    book.add_missing(code("2000", None));
    book.add_missing(code("1999", None));
    assert_eq!(book.codes.len(), 2);
    let order = book.order();
    assert_eq!(order.len(), 2);
    assert_eq!(book.candidate(0).cand.name, "2000");
}

fn setup(countries: &[&str], kind: Option<u64>, limit: usize, fast_path: bool) -> SearchSetup {
    SearchSetup {
        kind,
        limit,
        countries: countries.iter().map(|c| c.to_string()).collect(),
        housenumber: None,
        fast_path,
        resolutions: Vec::new(),
    }
}

#[test]
fn an_exact_name_is_looked_up_where_it_may_answer() {
    assert!(matches!(exact_scope(&setup(&["au"], None, 5, false)), ExactScope::Nowhere));
    assert!(matches!(exact_scope(&setup(&[], None, 5, true)), ExactScope::Everywhere));
    assert!(matches!(exact_scope(&setup(&["AU"], None, 5, true)), ExactScope::Country(c) if &c == b"au"));
    assert!(matches!(exact_scope(&setup(&["aus"], None, 5, true)), ExactScope::Nowhere));
}

#[test]
fn the_most_prominent_exact_name_answers_at_once() {
    let per_country = vec![
        CountryNames { code: *b"au", index: sample() },
        CountryNames { code: *b"nz", index: index_of(&[name("Sydney", KIND_POI, 5, None)]) },
    ];
    let files = unified_files(&per_country).unwrap().unwrap();
    let map = FstMap::open(files.fst.clone()).unwrap();
    let unified = UnifiedAutocomplete::open(map, &files.entries, &files.strings);
    let names = suggest::Autocomplete { unified: Some(unified), per_country: Vec::new() };
    let (code, hit) = names.exact_match_any("sydney").unwrap();
    assert_eq!((&code, hit.rank), (b"nz", 5));
    assert!(names.exact_match_any("syd").is_none());
    assert_eq!(quick_answer(&names, &setup(&[], None, 5, true), "Sydney").unwrap().rank, 5);
    assert_eq!(quick_answer(&names, &setup(&["AU"], None, 5, true), "Sydney").unwrap().rank, 16);
    assert!(quick_answer(&names, &setup(&["AU"], None, 5, false), "Sydney").is_none());
    let place = Some(KIND_PLACE as u64);
    assert_eq!(quick_answer(&names, &setup(&["AU"], place, 5, true), "Sydney").unwrap().name, "Sydney");
    assert!(quick_answer(&names, &setup(&["NZ"], place, 5, true), "Sydney").is_none());
}

#[test]
fn each_country_is_searched_and_the_best_come_first() {
    assert_eq!(search_countries(&setup(&[], None, 5, false)), vec![None]);
    assert_eq!(search_countries(&setup(&["AU", "NZ"], None, 5, false)), vec![Some("AU"), Some("NZ")]);
    let scores = [1.0f32.to_bits(), 3.0f32.to_bits(), 2.0f32.to_bits()];
    assert_eq!(answer_order(&setup(&["AU", "NZ"], None, 2, false), &scores), vec![1, 2]);
    assert_eq!(answer_order(&setup(&["AU"], None, 2, false), &scores), vec![0, 1, 2]);
}

#[test]
fn what_is_near_is_listed_by_distance() {
    let dists: Vec<u64> = [5.0f64, 2.0, f64::NAN, 10.0, 2.0, 10.5].iter().map(|d| d.to_bits()).collect();
    let radius = 10.0f64.to_bits();
    assert_eq!(within_radius(&dists, radius, 10), vec![1, 4, 0, 3]);
    assert_eq!(within_radius(&dists, radius, 2), vec![1, 4]);
    assert_eq!(within_radius(&dists, 1.0f64.to_bits(), 10), Vec::<u64>::new());
    assert_eq!(within_radius(&dists, f64::NAN.to_bits(), 10), Vec::<u64>::new());
}
