use query_server::address::Confidence;
use query_server::address_build::{AddressBuilder, AddressFiles, AddressRow};
use query_server::address_points::{AddressMatch, AddressPointIndex};
use query_server::admin::AdminResult;
use query_server::admin_config::AdminConfig;
use query_server::autocomplete::{KIND_PLACE, KIND_POI, KIND_STREET};
use query_server::country_list::CountryFilter;
use query_server::forward_build::{country_index_dir, place_doc, street_doc, PartitionedBuild, WholeBuild};
use query_server::gnaf::Gnaf;
use query_server::i18n::{pack_lang_code, I18nNames, ALIAS_PRIMARY, ENTITY_ADMIN, ENTITY_PLACE};
use query_server::ieee::Candidate;
use query_server::index::{GeoResult, Index, PlaceMatch};
use query_server::name_build::CountryIndexes;
use query_server::name_candidates::{place_candidate, poi_candidate, street_candidate, street_midpoint};
use query_server::openaddresses::OpenAddresses;
use query_server::query::{Finds, Nearby, POI_REACH};
use query_server::postal::{display_postcode, normalize_postcode, parse_wof_row, takes_dataset, PostalBook};
use query_server::records::{read_addr_point, read_place_point, read_poi_point, read_way_header, FLAG_ADDR_PLACE};

fn pool(texts: &[&str]) -> (Vec<u8>, Vec<u32>) {
    let mut bytes = vec![0u8];
    let mut at: Vec<u32> = Vec::new();
    for t in texts {
        at.push(bytes.len() as u32);
        bytes.extend_from_slice(t.as_bytes());
        bytes.push(0);
    }
    (bytes, at)
}

fn words(numbers: &[u32]) -> Vec<u8> {
    numbers.iter().flat_map(|n| n.to_le_bytes()).collect()
}

/// Lists of ids, each behind its length, and where each begins.
fn lists(ids: &[&[u32]]) -> (Vec<u8>, Vec<u32>) {
    let mut bytes: Vec<u8> = Vec::new();
    let mut at: Vec<u32> = Vec::new();
    for list in ids {
        at.push(bytes.len() as u32);
        bytes.extend_from_slice(&(list.len() as u16).to_le_bytes());
        bytes.extend(words(list));
    }
    (bytes, at)
}

fn index<'a>(strings: &'a [u8], cfg: &'a AdminConfig) -> Index<'a> {
    Index {
        geo_cells: &[],
        street_entries: &[],
        street_ways: &[],
        street_nodes: &[],
        addr_entries: &[],
        addr_points: &[],
        interp_entries: &[],
        interp_ways: &[],
        interp_nodes: &[],
        admin_cells: &[],
        admin_entries: &[],
        admin_polygons: &[],
        admin_vertices: &[],
        place_cells: None,
        place_entries: None,
        place_points: None,
        poi_cells: None,
        poi_entries: None,
        poi_points: None,
        strings,
        street_cell_level: 17,
        admin_cell_level: 10,
        max_distance_sq: 0.01f64.to_bits(),
        admin_config: cfg,
        postcode_lookup: None,
        gnaf: None,
        open_addresses: None,
        i18n_names: None,
    }
}

fn cand(id: u32, dist: f64) -> Candidate {
    Candidate { id, dist: dist.to_bits() }
}

fn nothing<'a>() -> Finds<'a> {
    Finds {
        place: None,
        gnaf: None,
        open_addresses: None,
        geo: GeoResult { addr: None, interp: None, street: None },
        poi: None,
    }
}

fn dataset_hit<'a>(street: &'a str, postcode: &'a str) -> AddressMatch<'a> {
    AddressMatch {
        lat: 1.0f32.to_bits(),
        lng: 2.0f32.to_bits(),
        housenumber: "10",
        street,
        locality: "Sydney",
        postcode,
        unit: "",
    }
}

fn address_files() -> AddressFiles {
    let mut b = AddressBuilder::new();
    let row = AddressRow {
        lat: 0,
        lng: 0,
        cell: 7,
        housenumber: "10",
        street: "George Street",
        locality: "Sydney",
        postcode: "2000",
    };
    assert!(b.push(&row));
    b.files().unwrap()
}

fn open(f: &AddressFiles) -> AddressPointIndex<'_> {
    AddressPointIndex::open(&f.points, &f.cells, &f.entries, &f.strings).ok().unwrap()
}

#[test]
fn cells_list_their_records() {
    let (entries, at) = lists(&[&[4, 5], &[9]]);
    let mut cells = 7u64.to_le_bytes().to_vec();
    cells.extend(words(&[u32::MAX, at[0], u32::MAX]));
    cells.extend(9u64.to_le_bytes());
    cells.extend(words(&[u32::MAX, at[1], u32::MAX]));
    let cfg = AdminConfig::embedded_default();
    let mut ix = index(&[0], &cfg);
    ix.geo_cells = &cells;
    ix.addr_entries = &entries;
    assert_eq!(ix.addr_ids(&[9, 7, 8]), vec![9, 4, 5]);
    assert_eq!(ix.addr_ids(&[8]), Vec::<u32>::new());
    assert_eq!(ix.street_ids(&[7]), Vec::<u32>::new());
    let mut areas = 3u64.to_le_bytes().to_vec();
    areas.extend(words(&[at[1]]));
    ix.admin_cells = &areas;
    ix.admin_entries = &entries;
    assert_eq!(ix.admin_ids(&[3, 4]), vec![9]);
    assert_eq!(ix.place_ids(&[3]), Vec::<u32>::new());
    let points = words(&[0, 0, 0, 0]);
    ix.place_cells = Some(&areas);
    ix.place_entries = Some(&entries);
    ix.place_points = Some(&points);
    assert_eq!(ix.place_ids(&[3]), vec![9]);
    ix.poi_cells = Some(&areas);
    ix.poi_entries = Some(&entries);
    ix.poi_points = Some(&points);
    assert_eq!(ix.poi_ids(&[3]), vec![9]);
}

#[test]
fn streets_are_listed_once_and_only_with_segments() {
    let (entries, at) = lists(&[&[1, 0, 1, 2]]);
    let mut cells = 7u64.to_le_bytes().to_vec();
    cells.extend(words(&[at[0], u32::MAX, at[0]]));
    // Street 0 has a single node, street 1 has two, street 2 does not exist.
    let ways = words(&[0, 1, 0, 0, 2, 0]);
    let nodes = words(&[0, 0, 0, 0]);
    // Way 0 lacks an end number, way 1 is whole, way 2 does not exist.
    let interp = words(&[0, 2, 0, 1, 0, 0, 0, 2, 0, 1, 9, 0]);
    let cfg = AdminConfig::embedded_default();
    let mut ix = index(&[0], &cfg);
    ix.geo_cells = &cells;
    ix.street_entries = &entries;
    ix.street_ways = &ways;
    ix.street_nodes = &nodes;
    ix.interp_entries = &entries;
    ix.interp_ways = &interp;
    ix.interp_nodes = &nodes;
    assert_eq!(ix.street_ids(&[7, 7]), vec![1]);
    assert_eq!(ix.interp_ids(&[7]), vec![1, 1]);
}

#[test]
fn the_most_prominent_place_is_picked() {
    let (strings, at) = pool(&["Hamlet", "Town", "Far Town"]);
    let points = words(&[0, 0, at[0], 20, 0, 0, at[1], 16, 0, 0, at[2], 16]);
    let cfg = AdminConfig::embedded_default();
    let mut ix = index(&strings, &cfg);
    assert!(ix.find_place(&[cand(0, 1.0)]).is_none());
    ix.place_points = Some(&points);
    let m = ix.find_place(&[cand(0, 1.0), cand(2, 9.0), cand(1, 5.0)]).unwrap();
    assert_eq!((m.name, m.rank), ("Town", 16));
    assert_eq!(ix.find_place(&[cand(0, 1.0), cand(7, 0.5)]).unwrap().name, "Hamlet");
    assert!(ix.find_place(&[]).is_none());
}

#[test]
fn a_point_of_interest_must_be_near() {
    let (strings, at) = pool(&["Opera House", "theatre", "Kiosk", "shop"]);
    let points = words(&[0, 0, at[0], at[1], 2, 0, 0, 0, at[2], at[3], 9, 0]);
    let cfg = AdminConfig::embedded_default();
    let mut ix = index(&strings, &cfg);
    ix.poi_points = Some(&points);
    let max = 10.0f64.to_bits();
    let m = ix.find_poi(&[cand(1, 1.0), cand(0, 10.0)], max).unwrap();
    assert_eq!((m.name, m.category, m.distance), ("Opera House", "theatre", 10.0f64.to_bits()));
    let m = ix.find_poi(&[cand(1, 1.0), cand(0, 10.5)], max).unwrap();
    assert_eq!((m.name, m.category), ("Kiosk", "shop"));
    assert!(ix.find_poi(&[cand(0, 11.0)], max).is_none());
}

#[test]
fn datasets_answer_for_a_house_number_first() {
    let (strings, at) = pool(&["10a", "Pitt Street", "Kleindorf", "Unit 3", "Level 2", "Altstadt"]);
    let mut addrs = words(&[11, 12, at[0], at[1], at[3], at[4], at[5], 0]);
    addrs.extend(words(&[21, 22, at[0], at[2], 0, 0, 0, FLAG_ADDR_PLACE as u32]));
    let cfg = AdminConfig::embedded_default();
    let files = address_files();
    let oa = OpenAddresses { shards: Vec::new() };
    let mut ix = index(&strings, &cfg);
    ix.addr_points = &addrs;
    ix.gnaf = Some(Gnaf { inner: open(&files) });
    ix.open_addresses = Some(&oa);
    let near = [cand(0, 2.0), cand(1, 1.0)];
    let gnaf = || Some(dataset_hit("George Street", "2000"));
    let other = || Some(dataset_hit("Queen Street", "1010"));
    let street = |m: &query_server::index::AddrPointMatch<'_>| m.street.to_string();

    let m = ix.find_addr_point_in_country("10A", None, Some(b"au"), gnaf(), other(), &near).unwrap();
    assert_eq!((street(&m).as_str(), m.unit, m.floor, m.parent_place, m.flags), ("George Street", "", "", "", 0));
    let m = ix.find_addr_point_in_country("10A", None, Some(b"NZ"), gnaf(), other(), &near).unwrap();
    assert_eq!(m.street, "Queen Street");
    let m = ix.find_addr_point_in_country("10A", None, None, None, other(), &near).unwrap();
    assert_eq!((m.street, m.parent_place, m.flags), ("Queen Street", "", 0));
    let m = ix.find_addr_point("10A", None, None, other(), &near).unwrap();
    assert_eq!(m.street, "Queen Street");
    let m = ix.find_addr_point_in_country("10A", None, None, None, None, &near).unwrap();
    assert_eq!((m.lat, m.street, m.parent_place, m.flags), (21, "", "Kleindorf", FLAG_ADDR_PLACE));
    let m = ix.find_addr_point("10A", Some(" pitt "), None, None, &near).unwrap();
    assert_eq!((m.lat, m.lng, m.housenumber, m.street), (11, 12, "10a", "Pitt Street"));
    assert_eq!((m.unit, m.floor, m.parent_place), ("Unit 3", "Level 2", "Altstadt"));
    assert!(ix.find_addr_point("10", None, None, None, &near).is_none());
    assert!(ix.find_addr_point("  ", None, None, None, &near).is_none());
    assert!(ix.try_gnaf(None) && ix.try_gnaf(Some(b"Au")) && !ix.try_gnaf(Some(b"NZ")));
    assert_eq!(ix.find_addr_point("10A", None, gnaf(), other(), &near).unwrap().street, "George Street");
}

#[test]
fn gaps_in_an_answer_are_filled() {
    let (strings, at) = pool(&["5", "Kleindorf"]);
    let addrs = words(&[0, 0, at[0], at[1], 0, 0, 0, FLAG_ADDR_PLACE as u32]);
    let cfg = AdminConfig::embedded_default();
    let files = address_files();
    let oa = OpenAddresses { shards: Vec::new() };
    let mut ix = index(&strings, &cfg);
    ix.addr_points = &addrs;
    ix.gnaf = Some(Gnaf { inner: open(&files) });
    ix.open_addresses = Some(&oa);
    let australia =
        || AdminResult { country: Some("Australia"), country_code: Some(*b"AU"), ..AdminResult::default() };
    assert!(ix.wants_place(&australia()) && !ix.wants_place(&AdminResult::default()));

    let place = || Some(PlaceMatch { name: "Dubbo", rank: 16 });
    let finds = Finds { place: place(), gnaf: Some(dataset_hit("x", "2830")), ..nothing() };
    let (found, admin) = ix.query_and_admin(australia(), finds);
    assert_eq!((found.address.city, found.address.postcode), (Some("Dubbo"), Some("2830")));
    assert_eq!((admin.city, admin.postcode), (Some("Dubbo"), Some("2830")));
    assert_eq!(found.confidence, Some(Confidence::Fallback));
    assert_eq!(found.display_name.as_deref(), Some("Dubbo 2830, Australia"));

    let finds = Finds { gnaf: Some(dataset_hit("x", "")), open_addresses: Some(dataset_hit("y", "99")), ..nothing() };
    assert_eq!(ix.query(australia(), finds).address.postcode, Some("99"));

    let geo = ix.query_geo(&[cand(0, 0.001)], &[], &[]);
    let (found, admin) = ix.query_and_admin(AdminResult::default(), Finds { place: place(), geo, ..nothing() });
    assert_eq!((found.address.house_number.as_deref(), found.address.road), (Some("5"), None));
    assert_eq!((found.address.city, admin.city), (Some("Kleindorf"), Some("Kleindorf")));
    assert_eq!(found.confidence, Some(Confidence::Exact));

    let (found, _) = ix.query_and_admin(AdminResult::default(), nothing());
    assert!(found.display_name.is_none() && found.confidence.is_none() && found.address.country.is_none());
}

#[test]
fn names_of_areas_are_put_into_a_language() {
    let (strings, at) = pool(&["Allemagne", "Baviere"]);
    let fr = pack_lang_code("fr").unwrap();
    let mut names: Vec<u8> = Vec::new();
    for (id, name) in [(3u32, at[0]), (8, at[1])] {
        names.extend([ENTITY_ADMIN, ALIAS_PRIMARY]);
        names.extend(fr.to_le_bytes());
        names.extend(words(&[id, name, 0]));
    }
    let cfg = AdminConfig::embedded_default();
    let mut ix = index(&strings, &cfg);
    let admin = || AdminResult {
        country: Some("Deutschland"),
        country_code: Some(*b"DE"),
        country_poly_id: Some(3),
        state: Some("Bayern"),
        state_poly_id: Some(8),
        city: Some("Passau"),
        city_poly_id: Some(9),
        ..AdminResult::default()
    };
    let found = ix.query(admin(), nothing());
    assert_eq!(ix.query_with_lang(found, &admin(), Some("fr")).address.country, Some("Deutschland"));
    ix.i18n_names = I18nNames::open(&names).unwrap();
    assert!(ix.i18n_names.is_some());
    let found = ix.query(admin(), nothing());
    let there = ix.query_with_lang(found, &admin(), Some("fr-CA"));
    assert_eq!((there.address.country, there.address.state), (Some("Allemagne"), Some("Baviere")));
    assert_eq!(there.address.city, Some("Passau"));
    assert_eq!(there.display_name.as_deref(), Some("Passau, Allemagne"));
    let found = ix.query(admin(), nothing());
    assert_eq!(ix.query_with_lang(found, &admin(), Some("de")).address.country, Some("Deutschland"));
    let found = ix.query(admin(), nothing());
    assert_eq!(ix.query_with_lang(found, &admin(), None).address.country, Some("Deutschland"));
}

#[test]
fn what_has_a_name_and_a_country_is_indexed() {
    let (strings, at) = pool(&["Sydney", "Sidney", "Pitt St", "Opera House", "Sydney Harbour"]);
    let places = words(&[1, 2, at[0], 16, 3, 4, 0, 16]);
    let ways = words(&[0, 3, at[2], 0, 0, at[2]]);
    let nodes = words(&[10, 11, 20, 21, 30, 31]);
    let pois = words(&[5, 6, at[3], 0, 10, at[4], 5, 6, at[3], 0, 11, 0]);
    let mut names: Vec<u8> = Vec::new();
    for (alias, name) in [(0u8, at[0]), (1, at[1])] {
        names.extend([ENTITY_PLACE, alias, 0, 0]);
        names.extend(words(&[0, name, 0]));
    }
    let cfg = AdminConfig::embedded_default();
    let mut ix = index(&strings, &cfg);
    ix.street_ways = &ways;
    ix.street_nodes = &nodes;
    ix.i18n_names = I18nNames::open(&names).unwrap();
    let admin = AdminResult { city: Some("The Rocks"), country_code: Some(*b"AU"), ..AdminResult::default() };
    let abroad = AdminResult { country_code: Some(*b"NZ"), ..AdminResult::default() };
    let filter = CountryFilter::parse("au");

    let place = read_place_point(&places, 0).unwrap();
    let c = place_candidate(&ix, 0, &place, &admin, &filter).unwrap();
    assert_eq!((&c.cc, c.cand.name, c.cand.kind, c.cand.rank), (b"au", "Sydney", KIND_PLACE, 16));
    assert_eq!((c.cand.lat, c.cand.lng, c.cand.suburb), (1, 2, Some("The Rocks")));
    assert_eq!(c.cand.aliases, vec!["Sidney"]);
    assert!(place_candidate(&ix, 0, &place, &abroad, &filter).is_none());
    assert!(place_candidate(&ix, 1, &read_place_point(&places, 1).unwrap(), &admin, &filter).is_none());

    let way = read_way_header(&ways, 0).unwrap();
    let mid = street_midpoint(&ix, &way).unwrap();
    assert_eq!((mid.lat, mid.lng), (20, 21));
    let street = street_candidate(&ix, &way, &admin, &filter).unwrap();
    assert_eq!((street.cand.name, street.cand.kind, street.cand.rank), ("Pitt St", KIND_STREET, 26));
    assert_eq!((street.cand.lat, street.name_id), (20, at[2]));
    let bare = read_way_header(&ways, 1).unwrap();
    assert!(street_midpoint(&ix, &bare).is_none() && street_candidate(&ix, &bare, &admin, &filter).is_none());

    let poi = poi_candidate(&ix, 0, &read_poi_point(&pois, 0).unwrap(), &admin, &filter).unwrap();
    assert_eq!((poi.cand.name, poi.cand.kind, poi.cand.suburb), ("Opera House", KIND_POI, Some("Sydney Harbour")));
    assert!(poi_candidate(&ix, 1, &read_poi_point(&pois, 1).unwrap(), &admin, &filter).is_none());

    let mut all = CountryIndexes::new();
    assert!(all.add(&c) && all.add(&poi));
    assert!(all.add_street(&street) && all.add_street(&street));
    let (records, _) = all.totals();
    assert_eq!((all.countries.len(), records), (1, 3));
}

#[test]
fn documents_are_made_of_places_and_streets() {
    let (strings, at) = pool(&["Sydney", "Pitt St"]);
    let places = words(&[1, 2, at[0], 16, 1, 2, 0, 16]);
    let ways = words(&[0, 3, at[1]]);
    let nodes = words(&[10, 11, 20, 21, 30, 31]);
    let cfg = AdminConfig::embedded_default();
    let mut ix = index(&strings, &cfg);
    ix.street_ways = &ways;
    ix.street_nodes = &nodes;
    let admin = AdminResult {
        city: Some("Surry Hills"),
        state: Some("New South Wales"),
        country_code: Some(*b"AU"),
        ..AdminResult::default()
    };
    let doc = place_doc(&ix, &read_place_point(&places, 0).unwrap(), &admin).unwrap();
    assert_eq!((doc.name_raw.as_str(), doc.country_code.as_str(), doc.kind, doc.rank), ("Sydney", "AU", 1, 16));
    assert_eq!((doc.lat, doc.lng), (1, 2));
    assert!(place_doc(&ix, &read_place_point(&places, 1).unwrap(), &admin).is_none());
    let doc = street_doc(&ix, &read_way_header(&ways, 0).unwrap(), &admin).unwrap();
    assert_eq!((doc.name_raw.as_str(), doc.kind, doc.rank, doc.lat), ("Pitt St", 2, 26, 20));
    ix.street_nodes = &[];
    assert!(street_doc(&ix, &read_way_header(&ways, 0).unwrap(), &admin).is_none());
}

#[test]
fn a_street_is_taken_once_where_it_is() {
    let mut whole = WholeBuild::new();
    whole.take_place();
    assert!(whole.take_street(5, Some("Ultimo")) && !whole.take_street(5, Some("Ultimo")));
    assert!(whole.take_street(5, None) && !whole.take_street(5, Some("")) && whole.take_street(6, None));
    assert_eq!((whole.stats.places, whole.stats.streets), (1, 3));

    let mut parts = PartitionedBuild::new();
    let first = parts.take_place(Some(*b"AU")).unwrap();
    assert!(first.at == 0 && first.fresh);
    assert!(parts.take_place(None).is_none() && parts.take_place(Some([0, b'U'])).is_none());
    let other = parts.take_street(5, Some("Ultimo"), Some(*b"NZ")).unwrap();
    assert!(other.at == 1 && other.fresh);
    assert!(parts.take_street(5, Some("Ultimo"), Some(*b"NZ")).is_none());
    assert!(!parts.take_street(5, Some("Ultimo"), Some(*b"AU")).unwrap().fresh);
    assert_eq!((parts.stats[0].places, parts.stats[0].streets), (1, 1));
    assert_eq!((parts.stats[1].places, parts.stats[1].streets), (0, 1));
    assert_eq!(country_index_dir("/d", b"AU"), "/d/tantivy_au");
    assert!(read_addr_point(&[0; 31], 0).is_none());
}

#[test]
fn postcodes_are_taken_from_addresses() {
    assert_eq!(normalize_postcode(" sw1a 2aa"), "SW1A2AA");
    assert_eq!(normalize_postcode("D-10115"), "D10115");
    assert_eq!(normalize_postcode("-"), "");
    assert_eq!(display_postcode("N19GU", b"gb"), "N1 9GU");
    assert_eq!(display_postcode("K1A0B1", b"ca"), "K1A 0B1");
    assert_eq!(display_postcode("1012AB", b"nl"), "1012 AB");
    assert_eq!(display_postcode("2000", b"au"), "2000");
    let mut b = AddressBuilder::new();
    for (lat, postcode, locality) in [(5.0f32, "sw1a 2aa", "London"), (1.0, "SW1A2AA", "Westminster"), (9.0, "1", "x")] {
        let row = AddressRow {
            lat: lat.to_bits(),
            lng: 0,
            cell: 1,
            housenumber: "1",
            street: "A Street",
            locality,
            postcode,
        };
        assert!(b.push(&row));
    }
    let files = b.files().unwrap();
    let mut book = PostalBook::new();
    book.add_points(&open(&files), *b"gb");
    assert_eq!(book.codes.len(), 1);
    let code = &book.codes[0];
    assert_eq!((&code.cc, code.name.as_str(), code.compact.as_str()), (b"gb", "SW1A 2AA", "SW1A2AA"));
    assert_eq!((f32::from_bits(code.lat), code.suburb), (1.0, Some("Westminster")));

    let row = parse_wof_row("GB\tSW1A 2AA\t51.5\t-0.1").unwrap();
    assert!(book.add_centroid(&row, 51.5f32.to_bits(), (-0.1f32).to_bits()));
    assert_eq!((book.codes.len(), f32::from_bits(book.codes[0].lat)), (1, 1.0));
    let row = parse_wof_row("NZ\t1010\t0\t0").unwrap();
    assert!(!book.add_centroid(&row, 0.0f32.to_bits(), (-0.0f32).to_bits()));
    assert!(!book.add_centroid(&row, 90.5f32.to_bits(), 0));
    assert!(!book.add_centroid(&row, 0, f32::NAN.to_bits()));
    assert!(book.add_centroid(&row, (-36.8f32).to_bits(), 180.0f32.to_bits()));
    assert_eq!((book.codes[1].name.as_str(), book.codes[1].suburb), ("1010", None));
    let all = CountryFilter::parse("");
    assert!(takes_dataset(&all, b"au", false) && !takes_dataset(&all, b"au", true) && takes_dataset(&all, b"nz", true));
    assert!(!takes_dataset(&CountryFilter::parse("au"), b"nz", false));
}

fn dataset_row(housenumber: &str, street: &str, postcode: &str) -> AddressFiles {
    let mut b = AddressBuilder::new();
    let row = AddressRow { lat: 0, lng: 0, cell: 7, housenumber, street, locality: "x", postcode };
    assert!(b.push(&row));
    b.files().unwrap()
}

#[test]
fn the_hint_decides_which_datasets_are_asked() {
    let (strings, at) = pool(&["10", "Pitt Street"]);
    let addrs = words(&[11, 12, at[0], at[1], 0, 0, 0, 0]);
    let cfg = AdminConfig::embedded_default();
    let (au, nz, de) = (address_files(), dataset_row("10", "Queen Street", "1010"), dataset_row("10", "Ring", "10115"));
    let mut oa = OpenAddresses::new();
    oa.insert(*b"NZ", open(&nz));
    oa.insert(*b"de", open(&de));
    let mut ix = index(&strings, &cfg);
    ix.addr_points = &addrs;
    ix.gnaf = Some(Gnaf { inner: open(&au) });
    ix.open_addresses = Some(&oa);
    let own = [cand(0, 3.0)];
    let points = [vec![cand(0, 2.0)], vec![cand(0, 1.0)]];
    let find = |country: Option<&[u8; 2]>, gnaf: &[Candidate]| {
        ix.locate_addr_point("10", None, country, gnaf, &points, &own).unwrap().street
    };
    assert_eq!(find(None, &[cand(0, 9.0)]), "George Street");
    assert_eq!(find(Some(b"AU"), &[cand(0, 9.0)]), "George Street");
    assert_eq!(find(Some(b"nz"), &[cand(0, 9.0)]), "Queen Street");
    assert_eq!(find(Some(b"fr"), &[cand(0, 9.0)]), "Pitt Street");
    assert_eq!(find(None, &[]), "Ring");
    assert_eq!(find(Some(b"AU"), &[]), "Pitt Street");
    assert!(oa.asks_shard(0, None) && oa.asks_shard(0, Some(b"Nz")) && !oa.asks_shard(1, Some(b"nz")));
}

#[test]
fn an_answer_comes_of_the_records_around_a_point() {
    let metres = 30.0f64 / 111_320.0;
    assert_eq!(POI_REACH, (metres * metres).to_bits());
    let (strings, at) = pool(&["5", "Ring", "Dorf", "Kiosk", "shop"]);
    let addrs = words(&[0, 0, at[0], at[1], 0, 0, 0, 0]);
    let places = words(&[0, 0, at[2], 16]);
    let pois = words(&[0, 0, at[3], at[4], 9, 0]);
    let cfg = AdminConfig::embedded_default();
    let (au, de) = (address_files(), dataset_row("5", "Ring", "10115"));
    let mut oa = OpenAddresses::new();
    oa.insert(*b"de", open(&de));
    let mut ix = index(&strings, &cfg);
    ix.addr_points = &addrs;
    ix.place_points = Some(&places);
    ix.poi_points = Some(&pois);
    ix.gnaf = Some(Gnaf { inner: open(&au) });
    ix.open_addresses = Some(&oa);
    let one = [cand(0, 0.0)];
    let shards = [vec![cand(0, 0.0)]];
    let near = Nearby {
        places: &one,
        gnaf: &one,
        open_addresses: &shards,
        addresses: &one,
        interpolations: &[],
        streets: &[],
        pois: &one,
    };
    let germany = || AdminResult { country: Some("Germany"), country_code: Some(*b"DE"), ..AdminResult::default() };
    let (found, admin) = ix.query_nearby(germany(), &near);
    assert_eq!((found.address.city, found.address.postcode), (Some("Dorf"), Some("10115")));
    assert_eq!((found.address.house_number.as_deref(), found.address.road), (Some("5"), Some("Ring")));
    assert_eq!(found.poi.map(|p| p.name), Some("Kiosk"));
    assert_eq!((admin.city, admin.postcode), (Some("Dorf"), Some("10115")));
    let australia = AdminResult { country: Some("Australia"), country_code: Some(*b"AU"), ..AdminResult::default() };
    assert_eq!(ix.query_nearby(australia, &near).0.address.postcode, Some("2000"));
    let far = [cand(0, 1.0)];
    let found = ix.query_nearby(germany(), &Nearby { pois: &far, addresses: &far, places: &[], ..near }).0;
    assert!(found.poi.is_none() && found.address.road.is_none() && found.address.city.is_none());
}
