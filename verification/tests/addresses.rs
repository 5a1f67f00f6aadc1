use query_server::address::{format_address, format_rules, AddressDetails, Confidence, EXACT, FALLBACK, INTERPOLATED};
use query_server::address_build::{AddressBuilder, AddressFiles, AddressRow};
use query_server::address_points::{presence, AddressPointIndex, BuildOutputPaths, IndexFault, Presence};
use query_server::cell_index::{build_cell_index, entries_fit, lookup_cell_offset, read_ids, scan_cells};
use query_server::cells::{cell_neighbors_at_level, is_cell_at_level, neighbourhood, DEFAULT_STREET_CELL_LEVEL};
use query_server::gnaf::Gnaf;
use query_server::ieee::Candidate;
use query_server::openaddresses::OpenAddresses;
use query_server::point_schema::{point_schema, schema_matches, schema_path, verify_points, FileLengths};
use query_server::string_pool::StringPool;

fn row<'a>(cell: u64, housenumber: &'a str, street: &'a str) -> AddressRow<'a> {
    AddressRow {
        lat: (-33.87f32).to_bits(),
        lng: 151.21f32.to_bits(),
        cell,
        housenumber,
        street,
        locality: "Sydney",
        postcode: "2000",
    }
}

fn built(rows: &[AddressRow<'_>]) -> AddressFiles {
    let mut b = AddressBuilder::new();
    for r in rows {
        assert!(b.push(r));
    }
    b.files().unwrap()
}

fn open(f: &AddressFiles) -> AddressPointIndex<'_> {
    AddressPointIndex::open(&f.points, &f.cells, &f.entries, &f.strings).ok().unwrap()
}

fn near(pairs: &[(u32, f64)]) -> Vec<Candidate> {
    pairs.iter().map(|p| Candidate { id: p.0, dist: p.1.to_bits() }).collect()
}

#[test]
fn what_was_built_is_read_back() {
    let files = built(&[row(7, "10", "George Street"), row(3, "12", "Pitt Street"), row(7, "14", "George Street")]);
    assert_eq!(files.cell_count, 2);
    let index = open(&files);
    assert_eq!(index.len(), 3);
    let mut seen: Vec<(String, String)> = Vec::new();
    for id in 0..3u32 {
        let m = index.hydrate(&index.get(id).unwrap());
        assert_eq!((m.locality, m.postcode, m.unit), ("Sydney", "2000", ""));
        seen.push((m.housenumber.to_string(), m.street.to_string()));
    }
    seen.sort();
    let want = [("10", "George Street"), ("12", "Pitt Street"), ("14", "George Street")];
    assert_eq!(seen, want.map(|p| (p.0.to_string(), p.1.to_string())).to_vec());
    assert!(index.get(3).is_none());
}

#[test]
fn points_are_found_by_their_cell() {
    let files = built(&[row(7, "10", "George Street"), row(3, "12", "Pitt Street"), row(7, "14", "George Street")]);
    let index = open(&files);
    assert_eq!(index.points_in_cells(&[7]).len(), 2);
    assert_eq!(index.points_in_cells(&[3]).len(), 1);
    assert_eq!(index.points_in_cells(&[5]).len(), 0);
    let id = index.points_in_cells(&[3])[0];
    assert_eq!(index.hydrate(&index.get(id).unwrap()).street, "Pitt Street");
}

#[test]
fn the_nearest_match_wins() {
    let files = built(&[row(1, "10", "George Street"), row(1, "10-14", "George Street"), row(1, "10", "Pitt Street")]);
    let index = open(&files);
    let cands = near(&[(0, 5.0), (1, 2.0), (2, 1.0)]);
    let m = index.find_by_housenumber("10", Some("george"), None, &cands).unwrap();
    assert_eq!((m.housenumber, m.street), ("10-14", "George Street"));
    let any = index.find_by_housenumber("10", None, None, &cands).unwrap();
    assert_eq!(any.street, "Pitt Street");
    assert!(index.find_by_housenumber("99", None, None, &cands).is_none());
    assert!(index.find_by_housenumber(" ", None, None, &cands).is_none());
    assert_eq!(index.find_nearest(&cands).unwrap().street, "Pitt Street");
    assert!(index.find_nearest(&[]).is_none());
}

#[test]
fn files_of_the_wrong_length_are_refused() {
    let files = built(&[row(1, "10", "George Street")]);
    let fault = |r: Result<AddressPointIndex<'_>, IndexFault>| r.err().unwrap();
    let (p, c, e, s) = (&files.points, &files.cells, &files.entries, &files.strings);
    assert_eq!(fault(AddressPointIndex::open(&p[1..], c, e, s)), IndexFault::PointLength);
    assert_eq!(fault(AddressPointIndex::open(p, &c[1..], e, s)), IndexFault::CellLength);
    assert_eq!(fault(AddressPointIndex::open(p, c, &[], s)), IndexFault::EntryHeader);
    assert_eq!(fault(AddressPointIndex::open(p, c, e, &[])), IndexFault::Sentinel);
}

#[test]
fn an_index_is_there_as_a_whole() {
    assert_eq!(presence([true; 4], true), Presence::Present);
    assert_eq!(presence([false; 4], false), Presence::Absent);
    assert_eq!(presence([false; 4], true), Presence::SchemaOnly);
    let paths = BuildOutputPaths::for_prefix("/d", "gnaf");
    assert_eq!(paths.points, "/d/gnaf_points.bin");
    assert_eq!(paths.strings, "/d/gnaf_strings.bin");
}

#[test]
fn a_schema_fits_its_own_files() {
    let lengths = FileLengths { points: 56, cells: 24, entries: 14, strings: 30 };
    let schema = point_schema(lengths);
    assert!(schema_matches(&schema, lengths));
    assert!(!schema_matches(&schema, FileLengths { points: 84, ..lengths }));
    assert!(verify_points("/d/x.json", Some(&schema), lengths).is_ok());
    assert!(verify_points("/d/x.json", None, lengths).unwrap_err().contains("/d/x.json"));
    assert_eq!(schema_path("/d/gnaf_points.bin"), "/d/gnaf_points.schema.json");
}

#[test]
fn a_cell_gives_back_its_ids() {
    let cells = [9u64, 9, 20];
    assert!(entries_fit(&cells));
    let index = build_cell_index(&cells);
    assert_eq!(index.count, 2);
    let at = lookup_cell_offset(&index.cells, 9).unwrap();
    assert_eq!(read_ids(&index.entries, at), vec![0, 1]);
    assert_eq!(scan_cells(&index.cells, &index.entries, &[20, 9]), vec![2, 0, 1]);
    assert_eq!(lookup_cell_offset(&index.cells, 10), None);
}

#[test]
fn a_cell_has_its_neighbours() {
    let cell = s2::cellid::CellID::from(s2::latlng::LatLng::from_degrees(-33.87, 151.21))
        .parent(DEFAULT_STREET_CELL_LEVEL);
    assert!(is_cell_at_level(cell.0, DEFAULT_STREET_CELL_LEVEL));
    assert!(!is_cell_at_level(cell.0 + 1, DEFAULT_STREET_CELL_LEVEL));
    let around = cell_neighbors_at_level(cell.0, DEFAULT_STREET_CELL_LEVEL);
    let want: Vec<u64> = cell.all_neighbors(DEFAULT_STREET_CELL_LEVEL).iter().map(|c| c.0).collect();
    assert_eq!(around, want);
    assert!(around.len() >= 7 && !around.contains(&cell.0));
    let all = neighbourhood(cell.0, DEFAULT_STREET_CELL_LEVEL);
    assert_eq!(all[0], cell.0);
    assert_eq!(all[1..], around[..]);
}

#[test]
fn a_pool_keeps_each_string_once() {
    let mut pool = StringPool::new();
    let empty = pool.intern("");
    let a = pool.intern("Sydney");
    let b = pool.intern("Perth");
    assert_eq!(empty, 0);
    assert_eq!(pool.intern("Sydney"), a);
    assert_ne!(a, b);
    assert_eq!(pool.as_bytes(), b"\0Sydney\0Perth\0");
}

#[test]
fn national_and_open_addresses_are_searched() {
    let files = built(&[row(1, "10", "George Street")]);
    let cands = near(&[(0, 4.0)]);
    let gnaf = Gnaf { inner: open(&files) };
    assert_eq!(gnaf.find_by_housenumber("10", Some("George"), &cands).unwrap().street, "George Street");
    assert_eq!(gnaf.find_nearest(&cands).unwrap().housenumber, "10");
    let mut oa = OpenAddresses::new();
    assert!(!oa.has_country(b"au"));
    oa.insert(*b"AU", open(&files));
    assert!(oa.has_country(b"au") && oa.has_country(b"AU"));
    assert_eq!(oa.countries(), vec![*b"au"]);
    assert_eq!(oa.find_nearest(b"AU", &cands).unwrap().housenumber, "10");
    assert!(oa.find_nearest(b"NZ", &cands).is_none());
    assert_eq!(oa.find_by_housenumber(b"au", "10", None, None, &cands).unwrap().street, "George Street");
    assert_eq!(oa.find_nearest_any(&[cands]).unwrap().housenumber, "10");
}

#[test]
fn a_number_without_a_country_is_looked_up_in_all() {
    let au = built(&[row(7, "10", "George Street")]);
    let nz = built(&[row(7, "10", "Queen Street"), row(7, "11", "Queen Street")]);
    let mut oa = OpenAddresses::new();
    oa.insert(*b"au", open(&au));
    oa.insert(*b"nz", open(&nz));
    let cands = [near(&[(0, 9.0)]), near(&[(0, 4.0), (1, 5.0)])];
    assert_eq!(oa.find_by_housenumber_any("10", None, None, &cands).unwrap().street, "Queen Street");
    assert_eq!(oa.find_by_housenumber_any("10", Some("George"), None, &cands).unwrap().street, "George Street");
    assert_eq!(oa.find_by_housenumber_any("11", None, None, &cands).unwrap().housenumber, "11");
    assert!(oa.find_by_housenumber_any("12", None, None, &cands).is_none());
    // Of two that are as near, the first country's.
    let tied = [near(&[(0, 4.0)]), near(&[(0, 4.0)])];
    assert_eq!(oa.find_by_housenumber_any("10", None, None, &tied).unwrap().street, "George Street");
}

#[test]
fn a_text_is_stored_once() {
    let mut b = AddressBuilder::new();
    assert!(b.push(&row(7, "10", "George Street")));
    let size = b.pool.len();
    assert_eq!(size, 1 + 3 + 14 + 7 + 5);
    assert!(b.push(&row(8, "10", "George Street")));
    assert_eq!(b.pool.len(), size);
    assert!(b.push(&row(8, "10", "Sydney")));
    assert_eq!(b.pool.len(), size);
    assert_eq!(b.pool.size_with(&["Pitt", "", "Pitt", "10"]), size as u128 + 5);
}

fn details(code: &str) -> AddressDetails<'static> {
    AddressDetails {
        house_number: Some("10".to_string()),
        road: Some("Main Street"),
        city: Some("Town"),
        state: Some("State"),
        county: None,
        postcode: Some("1234"),
        country: Some("Land"),
        country_code: Some(code.to_string()),
    }
}

#[test]
fn an_address_reads_as_its_country_writes_it() {
    assert_eq!(format_address(&details("AU")).unwrap(), "10 Main Street, Town, State 1234, Land");
    assert_eq!(format_address(&details("DE")).unwrap(), "Main Street 10, 1234 Town, Land");
    assert_eq!(format_address(&AddressDetails::default()), None);
    let (after, first, state) = format_rules(Some("DE"));
    assert!(after && first && !state);
}

#[test]
fn a_lone_postcode_keeps_no_space() {
    let mut d = details("DE");
    d.city = None;
    assert_eq!(format_address(&d).unwrap(), "Main Street 10, 1234, Land");
    d.road = None;
    d.postcode = None;
    assert_eq!(format_address(&d).unwrap(), "Land");
}

#[test]
fn confidence_has_a_label() {
    assert_eq!(Confidence::Exact.label(), EXACT);
    assert_eq!(Confidence::Interpolated.label(), INTERPOLATED);
    assert_eq!(Confidence::Fallback.label(), FALLBACK);
}
