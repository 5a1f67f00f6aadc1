use query_server::admin_config::AdminConfig;
use query_server::ieee::{is_finite32, less64, pick_nearest, Candidate};
use query_server::index::{Index, InterpCandidate};
use query_server::query::Finds;
use query_server::records::{InterpWay, ADDR_POINT_SIZE, ADMIN_POLYGON_SIZE, INTERP_WAY_SIZE, WAY_HEADER_SIZE};
use query_server::reverse::{check_nonempty, check_records, interpolated_number, lookup_geo_cell};

/// A pool of strings, and where each begins.
fn pool(texts: &[&str]) -> (Vec<u8>, Vec<u32>) {
    let mut bytes = vec![0u8];
    let mut at: Vec<u32> = Vec::new();
    for t in texts {
        at.push(bytes.len() as u32);
        bytes.extend_from_slice(t.as_bytes());
        bytes.push(0);
    }
    (bytes, at)
}

fn put(v: &mut Vec<u8>, n: u32) {
    v.extend_from_slice(&n.to_le_bytes());
}

fn polygon(name: u32, level: u8, area: f32, cc: &[u8; 2]) -> Vec<u8> {
    let mut v = Vec::new();
    put(&mut v, 0);
    put(&mut v, 4);
    put(&mut v, name);
    put(&mut v, level as u32);
    put(&mut v, area.to_bits());
    v.extend_from_slice(&((cc[0] as u16) << 8 | cc[1] as u16).to_le_bytes());
    v.extend_from_slice(&[0, 0]);
    assert_eq!(v.len(), ADMIN_POLYGON_SIZE);
    v
}

fn index<'a>(strings: &'a [u8], polygons: &'a [u8], addrs: &'a [u8], ways: &'a [u8], interp: &'a [u8], cfg: &'a AdminConfig) -> Index<'a> {
    Index {
        geo_cells: &[],
        street_entries: &[],
        street_ways: ways,
        street_nodes: &[],
        addr_entries: &[],
        addr_points: addrs,
        interp_entries: &[],
        interp_ways: interp,
        interp_nodes: &[],
        admin_cells: &[],
        admin_entries: &[],
        admin_polygons: polygons,
        admin_vertices: &[0; 32],
        place_cells: None,
        place_entries: None,
        place_points: None,
        poi_cells: None,
        poi_entries: None,
        poi_points: None,
        strings,
        street_cell_level: 17,
        admin_cell_level: 10,
        max_distance_sq: 0.01f64.to_bits(),
        admin_config: cfg,
        postcode_lookup: None,
        gnaf: None,
        open_addresses: None,
        i18n_names: None,
    }
}

#[test]
fn the_smallest_area_around_names_each_level() {
    let (strings, at) = pool(&["Australia", "New South Wales", "Big", "Small"]);
    let mut polygons = polygon(at[0], 2, 700.0, b"AU");
    polygons.extend(polygon(at[1], 4, 80.0, b"AU"));
    polygons.extend(polygon(at[2], 6, 9.0, b"AU"));
    polygons.extend(polygon(at[3], 6, 3.0, b"AU"));
    let cfg = AdminConfig::embedded_default();
    let ix = index(&strings, &polygons, &[], &[], &[], &cfg);
    let scan = ix.scan_admin(&[0, 1, 2, 3], &[true; 4]);
    let admin = ix.find_admin(&scan, None);
    assert_eq!(admin.country, Some("Australia"));
    assert_eq!(admin.country_code, Some(*b"AU"));
    assert_eq!(admin.state, Some("New South Wales"));
    assert_eq!(admin.county, Some("Small"));
    let outside = ix.scan_admin(&[0, 1, 2, 3], &[true, true, true, false]);
    assert_eq!(ix.find_admin(&outside, None).county, Some("Big"));
    let interior = ix.scan_admin(&[0, 1, 2, 0x8000_0003], &[false; 4]);
    assert_eq!(ix.find_admin(&interior, None).county, Some("Small"));
    assert_eq!(ix.find_admin(&interior, None).country, None);
}

#[test]
fn an_exact_address_is_answered() {
    let (strings, at) = pool(&["10", "George Street", "Australia"]);
    let polygons = polygon(at[2], 2, 700.0, b"AU");
    let mut addrs = Vec::new();
    for n in [0u32, 0, at[0], at[1], 0, 0, 0xFFFF_FFFF, 0] {
        put(&mut addrs, n);
    }
    assert_eq!(addrs.len(), ADDR_POINT_SIZE);
    let cfg = AdminConfig::embedded_default();
    let ix = index(&strings, &polygons, &addrs, &[], &[], &cfg);
    let geo = ix.query_geo(&[Candidate { id: 0, dist: 0.0001f64.to_bits() }], &[], &[]);
    assert!(geo.addr.is_some());
    let admin = ix.find_admin(&ix.scan_admin(&[0], &[true]), None);
    let found = ix.query(admin, Finds { place: None, gnaf: None, open_addresses: None, geo, poi: None });
    assert_eq!(found.display_name.as_deref(), Some("10 George Street, Australia"));
    assert_eq!(found.address.house_number.as_deref(), Some("10"));
    assert_eq!(found.address.country_code.as_deref(), Some("AU"));
    let far = ix.query_geo(&[Candidate { id: 0, dist: 0.5f64.to_bits() }], &[], &[]);
    let admin = ix.find_admin(&ix.scan_admin(&[0], &[true]), None);
    let far = ix.query(admin, Finds { place: None, gnaf: None, open_addresses: None, geo: far, poi: None });
    assert_eq!(far.address.road, None);
}

#[test]
fn a_street_is_answered_by_name() {
    let (strings, at) = pool(&["Pitt Street"]);
    let mut ways = Vec::new();
    put(&mut ways, 0);
    put(&mut ways, 2);
    put(&mut ways, at[0]);
    assert_eq!(ways.len(), WAY_HEADER_SIZE);
    let cfg = AdminConfig::embedded_default();
    let ix = index(&strings, &[], &[], &ways, &[], &cfg);
    let geo = ix.query_geo(&[], &[], &[Candidate { id: 0, dist: 0.0001f64.to_bits() }]);
    let admin = ix.find_admin(&ix.scan_admin(&[], &[]), None);
    let found = ix.query(admin, Finds { place: None, gnaf: None, open_addresses: None, geo, poi: None });
    assert_eq!(found.address.road, Some("Pitt Street"));
}

#[test]
fn numbers_between_are_interpolated() {
    let (strings, at) = pool(&["Pitt Street"]);
    let mut interp = Vec::new();
    put(&mut interp, 0);
    put(&mut interp, 2);
    put(&mut interp, at[0]);
    put(&mut interp, 2);
    put(&mut interp, 20);
    put(&mut interp, 1);
    assert_eq!(interp.len(), INTERP_WAY_SIZE);
    let cfg = AdminConfig::embedded_default();
    let ix = index(&strings, &[], &[], &[], &interp, &cfg);
    let near = [InterpCandidate { id: 0, dist: 0.0001f64.to_bits(), steps: 3, nearest_number: 8 }];
    let geo = ix.query_geo(&[], &near, &[]);
    let (_, street, number) = geo.interp.unwrap();
    assert_eq!((street, number), ("Pitt Street", 8));
    let way = InterpWay { node_offset: 0, node_count: 2, street_id: 0, start_number: 2, end_number: 20, interpolation: 0 };
    assert_eq!(interpolated_number(&way, 3, 7), 7);
}

#[test]
fn distances_are_compared_as_numbers() {
    assert!(less64((-1.0f64).to_bits(), 1.0f64.to_bits()));
    assert!(less64((-2.0f64).to_bits(), (-1.0f64).to_bits()));
    assert!(!less64(0.0f64.to_bits(), (-0.0f64).to_bits()));
    assert!(is_finite32(1.0f32.to_bits()));
    assert!(!is_finite32(f32::NAN.to_bits()) && !is_finite32(f32::INFINITY.to_bits()));
    let cands = [Candidate { id: 4, dist: 3.0f64.to_bits() }, Candidate { id: 5, dist: 2.0f64.to_bits() }];
    assert_eq!(pick_nearest(&cands, &[true, true]), Some(1));
    assert_eq!(pick_nearest(&cands, &[true, false]), Some(0));
    assert_eq!(pick_nearest(&cands, &[false, false]), None);
}

#[test]
fn files_are_whole_records() {
    assert!(check_records("/d/a.bin", 24, 12, "WayHeader").is_ok());
    assert!(check_records("/d/a.bin", 25, 12, "WayHeader").unwrap_err().contains("/d/a.bin"));
    assert!(check_nonempty("/d/a.bin", 1, "strings").is_ok());
    assert!(check_nonempty("/d/a.bin", 0, "strings").is_err());
    let none = lookup_geo_cell(&[], 5);
    assert_eq!((none.street, none.addr, none.interp), (u32::MAX, u32::MAX, u32::MAX));
}
