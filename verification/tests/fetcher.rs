use query_server::checksum::{check_contents, fault_message, hex_string, md5_string};
use query_server::fetch::{
    accepts_ranges, check_md5, etag_sidecar, expected_length, failure, last_modified, modified_since, on_status,
    partial_sidecar, pick_etag, plan_request, read_etag, resumed, verifies, FetchAction, FetchOpts, FetchOutcome,
    FetchTarget, LocalFiles, Md5Fault,
};
use query_server::mismatch::{
    check_pbf_directory_consistency, format_mismatch, is_mismatch, mismatch_error, FetchCause, FetchError, Mismatch,
};
use query_server::region::Region;
use query_server::replication::ReplicationState;

#[test]
fn all_presets_resolve_to_expected_urls() {
    let cases: &[(Region, &[&str])] = &[
        (
            Region::Africa,
            &["https://download.geofabrik.de/africa-latest.osm.pbf"],
        ),
        (
            Region::Antarctica,
            &["https://download.geofabrik.de/antarctica-latest.osm.pbf"],
        ),
        (
            Region::Asia,
            &["https://download.geofabrik.de/asia-latest.osm.pbf"],
        ),
        (
            Region::AustraliaOceania,
            &["https://download.geofabrik.de/australia-oceania-latest.osm.pbf"],
        ),
        (
            Region::CentralAmerica,
            &["https://download.geofabrik.de/central-america-latest.osm.pbf"],
        ),
        (
            Region::Europe,
            &["https://download.geofabrik.de/europe-latest.osm.pbf"],
        ),
        (
            Region::NorthAmerica,
            &["https://download.geofabrik.de/north-america-latest.osm.pbf"],
        ),
        (
            Region::Russia,
            &["https://download.geofabrik.de/russia-latest.osm.pbf"],
        ),
        (
            Region::SouthAmerica,
            &["https://download.geofabrik.de/south-america-latest.osm.pbf"],
        ),
        (
            Region::Australia,
            &["https://download.geofabrik.de/australia-oceania/australia-latest.osm.pbf"],
        ),
        (
            Region::NewZealand,
            &["https://download.geofabrik.de/australia-oceania/new-zealand-latest.osm.pbf"],
        ),
        (
            Region::Niue,
            &["https://download.geofabrik.de/australia-oceania/niue-latest.osm.pbf"],
        ),
        (
            Region::UnitedKingdom,
            &["https://download.geofabrik.de/europe/united-kingdom-latest.osm.pbf"],
        ),
        (
            Region::Canada,
            &["https://download.geofabrik.de/north-america/canada-latest.osm.pbf"],
        ),
        (
            Region::Usa,
            &["https://download.geofabrik.de/north-america/us-latest.osm.pbf"],
        ),
        (
            Region::Planet,
            &["https://planet.openstreetmap.org/pbf/planet-latest.osm.pbf"],
        ),
    ];
    for (region, expected) in cases {
        let actual: Vec<String> = region.urls();
        let expected_owned: Vec<String> = expected.iter().map(|s| s.to_string()).collect();
        assert_eq!(actual, expected_owned, "region={region:?}");
    }
}

#[test]
fn all_continents_returns_nine_geofabrik_urls() {
    let urls = Region::AllContinents.urls();
    assert_eq!(urls.len(), 9);
    for text in &urls {
        let url = url::Url::parse(text).unwrap();
        assert_eq!(
            url.host_str(),
            Some("download.geofabrik.de"),
            "all-continents must route through Geofabrik (got {url})",
        );
        assert!(
            url.path().ends_with("-latest.osm.pbf"),
            "expected continent extract suffix, got {url}",
        );
    }
}

#[test]
fn oceania_alias_resolves_to_full_continent() {
    assert_eq!(
        Region::from_str("oceania").unwrap().urls(),
        Region::AustraliaOceania.urls()
    );
}

#[test]
fn english_country_aliases_resolve_to_country_extracts() {
    assert_eq!(Region::from_str("uk").unwrap(), Region::UnitedKingdom);
    assert_eq!(Region::from_str("gb").unwrap(), Region::UnitedKingdom);
    assert_eq!(Region::from_str("ca").unwrap(), Region::Canada);
}

#[test]
fn unknown_region_errors() {
    let err = Region::from_str("middle-earth").unwrap_err();
    assert!(
        err.to_string().contains("unknown region 'middle-earth'"),
        "expected helpful error, got {err}"
    );
}

#[test]
fn md5_sidecar_only_for_geofabrik() {
    assert_eq!(
        Region::md5_url("https://download.geofabrik.de/africa-latest.osm.pbf"),
        Some("https://download.geofabrik.de/africa-latest.osm.pbf.md5".to_string())
    );
    assert!(Region::md5_url("https://planet.openstreetmap.org/pbf/planet-latest.osm.pbf").is_none());
}

#[test]
fn state_url_derivation() {
    assert_eq!(
        Region::state_url("https://download.geofabrik.de/africa-latest.osm.pbf"),
        Some("https://download.geofabrik.de/africa-updates/state.txt".to_string())
    );
    assert_eq!(
        Region::state_url("https://planet.openstreetmap.org/pbf/planet-latest.osm.pbf"),
        Some("https://planet.openstreetmap.org/replication/day/state.txt".to_string())
    );
    assert_eq!(
        Region::state_url("https://download.geofabrik.de/north-america/us-latest.osm.pbf"),
        Some("https://download.geofabrik.de/north-america/us-updates/state.txt".to_string())
    );
}

#[test]
fn an_address_is_read_in_its_normal_form() {
    assert_eq!(
        Region::md5_url("HTTPS://DOWNLOAD.GEOFABRIK.DE:443/africa-latest.osm.pbf"),
        Some("https://download.geofabrik.de/africa-latest.osm.pbf.md5".to_string())
    );
    assert_eq!(Region::md5_url("not a url"), None);
    assert_eq!(Region::state_url("https://example.com/x.osm.pbf"), None);
}

const DIR: &str = "/data/pbf";

fn names(list: &[&str]) -> Vec<String> {
    list.iter().map(|n| n.to_string()).collect()
}

#[test]
fn empty_directory_passes_for_any_target() {
    for target in [Region::Planet, Region::AllContinents, Region::AustraliaOceania] {
        assert!(check_pbf_directory_consistency(DIR, &names(&[]), target).is_ok());
    }
}

#[test]
fn planet_only_matches_planet_target() {
    let dir = names(&["planet-latest.osm.pbf"]);
    assert!(check_pbf_directory_consistency(DIR, &dir, Region::Planet).is_ok());
    let err = check_pbf_directory_consistency(DIR, &dir, Region::AllContinents).err().unwrap();
    match err {
        Mismatch::PlanetExistsButContinentsRequested { planet_path } => {
            assert_eq!(planet_path, "/data/pbf/planet-latest.osm.pbf");
        }
        _ => panic!("unexpected variant"),
    }
}

#[test]
fn continents_only_matches_continent_target() {
    let dir = names(&["europe-latest.osm.pbf", "north-america-latest.osm.pbf"]);
    assert!(check_pbf_directory_consistency(DIR, &dir, Region::AllContinents).is_ok());
    assert!(check_pbf_directory_consistency(DIR, &dir, Region::Europe).is_ok());
    let err = check_pbf_directory_consistency(DIR, &dir, Region::Planet).err().unwrap();
    match err {
        Mismatch::ContinentsExistButPlanetRequested { continent_paths } => {
            assert_eq!(continent_paths.len(), 2);
        }
        _ => panic!("unexpected variant"),
    }
}

#[test]
fn nonexistent_directory_passes() {
    assert!(check_pbf_directory_consistency("/data/pbf/nonexistent", &names(&[]), Region::Planet).is_ok());
}

#[test]
fn unrelated_files_ignored() {
    let dir = names(&[
        "europe-latest.osm.pbf.etag",
        "europe-latest.osm.pbf.md5",
        "europe-latest.osm.pbf.partial",
        "europe-latest.osm.pbf.state.txt",
        "README.md",
    ]);
    assert!(check_pbf_directory_consistency(DIR, &dir, Region::Planet).is_ok());
}

#[test]
fn display_remediation_includes_path() {
    let m = Mismatch::PlanetExistsButContinentsRequested {
        planet_path: "/data/pbf/planet-latest.osm.pbf".to_string(),
    };
    let s = format_mismatch(&m);
    assert!(s.contains("/data/pbf/planet-latest.osm.pbf"));
    assert!(s.contains("--region planet"));
    assert!(s.contains("--region all-continents"));
}

#[test]
fn a_mismatch_is_told_from_other_failures() {
    let m = Mismatch::ContinentsExistButPlanetRequested { continent_paths: names(&["/data/pbf/europe-latest.osm.pbf"]) };
    assert!(is_mismatch(&mismatch_error(&m)));
    let other = FetchError { chain: vec![FetchCause::Message("connection reset".to_string())] };
    assert!(!is_mismatch(&other));
}

const SAMPLE: &str = "# original OSM minutely replication sequence number 7086110\n\
                      timestamp=2026-04-25T20\\:20\\:59Z\n\
                      sequenceNumber=4769\n";

#[test]
fn parse_real_geofabrik_state() {
    let state = ReplicationState::parse(SAMPLE).ok().unwrap();
    assert_eq!(state.sequence_number, 4769);
    let moment = chrono::DateTime::from_timestamp(state.timestamp, state.nanos).unwrap();
    assert_eq!(moment.to_rfc3339(), "2026-04-25T20:20:59+00:00");
    assert_eq!(state.comments.len(), 1);
    assert!(state.comments[0].contains("7086110"));
}

#[test]
fn roundtrip_byte_identical() {
    let state = ReplicationState::parse(SAMPLE).ok().unwrap();
    let serialized = state.to_string_wire();
    assert_eq!(serialized, SAMPLE);
}

#[test]
fn parse_accepts_rfc3339_without_escaping() {
    let unescaped = "timestamp=2026-01-01T00:00:00Z\nsequenceNumber=1\n";
    let state = ReplicationState::parse(unescaped).ok().unwrap();
    assert_eq!(state.sequence_number, 1);
}

#[test]
fn missing_timestamp_errors() {
    let err = ReplicationState::parse("sequenceNumber=1\n").err().unwrap();
    assert!(err.contains("missing 'timestamp'"));
}

#[test]
fn missing_sequence_errors() {
    let err = ReplicationState::parse("timestamp=2026-01-01T00:00:00Z\n").err().unwrap();
    assert!(err.contains("missing 'sequenceNumber'"));
}

#[test]
fn malformed_line_errors() {
    let s = "timestamp=2026-01-01T00:00:00Z\nthis-is-garbage\nsequenceNumber=1\n";
    let err = ReplicationState::parse(s).err().unwrap();
    assert!(err.contains("malformed state.txt line"));
}

#[test]
fn a_timestamp_keeps_its_moment() {
    let shifted = "timestamp=2026-01-01T10:00:00+10:00\nsequenceNumber=7\n";
    let state = ReplicationState::parse(shifted).ok().unwrap();
    assert_eq!(state.timestamp, 1767225600);
    assert_eq!(state.to_string_wire(), "timestamp=2026-01-01T00\\:00\\:00Z\nsequenceNumber=7\n");
    assert!(ReplicationState::parse("timestamp=yesterday\nsequenceNumber=1\n").is_err());
    assert!(ReplicationState::parse("timestamp=2026-01-01T00:00:00Z\nsequenceNumber=-1\n").is_err());
}

fn opts(force: bool, resume: bool) -> FetchOpts {
    FetchOpts { force, verify_md5: true, resume, show_progress: false }
}

#[test]
fn a_known_file_is_asked_for_conditionally() {
    let files = LocalFiles { partial: None, etag: Some("\"abc\""), mtime: Some(784111777) };
    let request = plan_request(&opts(false, true), &files);
    assert_eq!(request.range, None);
    assert_eq!(request.if_none_match, Some("\"abc\"".to_string()));
    assert_eq!(request.if_modified_since, Some("Sun, 06 Nov 1994 08:49:37 GMT".to_string()));
}

#[test]
fn a_part_is_asked_on_from_where_it_ends() {
    let files = LocalFiles { partial: Some(1000), etag: Some("\"abc\""), mtime: None };
    let request = plan_request(&opts(false, true), &files);
    assert_eq!(request.range, Some("bytes=1000-".to_string()));
    assert_eq!(request.if_range, Some("\"abc\"".to_string()));
}

#[test]
fn a_forced_fetch_is_unconditional() {
    let files = LocalFiles { partial: None, etag: Some("\"abc\""), mtime: Some(784111777) };
    let request = plan_request(&opts(true, true), &files);
    assert_eq!(request.range, None);
    assert_eq!(request.if_none_match, None);
    assert_eq!(request.if_modified_since, None);
    assert_eq!(on_status(&request, 200), FetchAction::DownloadFull);
    assert_eq!(on_status(&request, 304), FetchAction::Fail);
}

#[test]
fn each_status_has_its_action() {
    let fresh = plan_request(&opts(false, true), &LocalFiles { partial: None, etag: None, mtime: None });
    assert_eq!(on_status(&fresh, 200), FetchAction::DownloadFull);
    assert_eq!(on_status(&fresh, 304), FetchAction::Fail);
    assert_eq!(on_status(&fresh, 412), FetchAction::Fail);
    assert_eq!(on_status(&fresh, 500), FetchAction::Fail);
    let tagged = plan_request(&opts(false, true), &LocalFiles { partial: None, etag: Some("\"a\""), mtime: None });
    assert_eq!(on_status(&tagged, 304), FetchAction::Keep);
    assert_eq!(on_status(&tagged, 412), FetchAction::ForgetTag);
    assert_eq!(on_status(&tagged, 416), FetchAction::Fail);
    let dated = plan_request(&opts(false, true), &LocalFiles { partial: None, etag: None, mtime: Some(784111777) });
    assert_eq!(on_status(&dated, 304), FetchAction::Keep);
    let rest = plan_request(&opts(false, true), &LocalFiles { partial: Some(5), etag: Some("\"a\""), mtime: None });
    assert_eq!(on_status(&rest, 200), FetchAction::DownloadFull);
    assert_eq!(on_status(&rest, 206), FetchAction::Append);
    assert_eq!(on_status(&rest, 412), FetchAction::ForgetTag);
    assert_eq!(on_status(&rest, 416), FetchAction::StartOver);
    assert_eq!(on_status(&rest, 304), FetchAction::Fail);
}

#[test]
fn dates_of_the_web_are_read_and_written() {
    assert_eq!(last_modified(Some("Sun, 06 Nov 1994 08:49:37 GMT")), Some(784111777));
    assert_eq!(last_modified(Some("soon")), None);
    assert_eq!(last_modified(None), None);
    assert_eq!(modified_since(784111777), Some("Sun, 06 Nov 1994 08:49:37 GMT".to_string()));
}

#[test]
fn sidecars_stand_beside_the_file() {
    assert_eq!(etag_sidecar("/d/a.pbf"), "/d/a.pbf.etag");
    assert_eq!(partial_sidecar("/d/a.pbf"), "/d/a.pbf.partial");
    assert_eq!(read_etag("  \"x\" \n"), Some("\"x\"".to_string()));
    assert_eq!(read_etag(" \n"), None);
    assert_eq!(pick_etag(Some("new"), Some("old")), Some("new".to_string()));
    assert_eq!(pick_etag(None, Some("old")), Some("old".to_string()));
}

#[test]
fn a_checksum_is_the_first_word() {
    let sum = "9e107d9d372bb6826bd81d3542a419d6";
    assert!(check_md5(&format!("{sum}  a.pbf\n"), sum).is_ok());
    assert!(matches!(check_md5("  \n", sum), Err(Md5Fault::Empty)));
    match check_md5("00  a.pbf\n", sum) {
        Err(Md5Fault::Differs { server }) => assert_eq!(server, "00"),
        _ => panic!("expected a difference"),
    }
    let target = FetchTarget { url: "u".to_string(), dest: "d".to_string(), md5_url: None };
    assert!(!verifies(&opts(false, true), &target));
}

#[test]
fn lengths_add_up() {
    assert!(matches!(resumed(10, 5), FetchOutcome::Resumed { bytes: 5, total: 15 }));
    assert_eq!(expected_length(Some("5"), 10), Some(15));
    assert_eq!(expected_length(Some("five"), 10), None);
    assert!(accepts_ranges(Some("bytes")));
    assert!(!accepts_ranges(None));
}

#[test]
fn a_failure_quotes_the_body() {
    let long = "é".repeat(600);
    let text = failure("pbf", "https://example.com/a", "500 Internal Server Error", &long);
    assert!(text.ends_with(&format!("(first 1 KiB): {}", "é".repeat(512))));
    let odd = format!("a{long}");
    let text = failure("pbf", "https://example.com/a", "500 Internal Server Error", &odd);
    assert!(text.ends_with(&format!("(first 1 KiB): a{}", "é".repeat(511))));
    let plain = "x".repeat(1025);
    let text = failure("pbf", "https://example.com/a", "500 Internal Server Error", &plain);
    assert!(text.ends_with(&format!("(first 1 KiB): {}", "x".repeat(1024))));
    let text = failure("pbf", "https://example.com/a", "500 Internal Server Error", "oops");
    assert!(text.contains("https://example.com/a") && text.contains("500") && text.contains("oops"));
}

#[test]
fn a_file_is_held_against_its_checksum() {
    assert_eq!(hex_string(&[0x00, 0x0f, 0xa5, 0xff]), "000fa5ff");
    assert_eq!(md5_string(b"hello world"), "5eb63bbbe01eeed093cb22bb8f5acdc3");
    assert_eq!(md5_string(b""), "d41d8cd98f00b204e9800998ecf8427e");
    let published = "5EB63BBBE01EEED093CB22BB8F5ACDC3  file.osm.pbf\n";
    assert!(check_contents(published, b"hello world").is_ok());
    let local = md5_string(b"hello");
    match check_contents(published, b"hello") {
        Err(fault) => {
            assert!(matches!(&fault, Md5Fault::Differs { server } if server == "5eb63bbbe01eeed093cb22bb8f5acdc3"));
            assert_eq!(
                fault_message(&fault, "/d/f", "https://x/f.md5", &local),
                format!("md5 mismatch on /d/f: server=5eb63bbbe01eeed093cb22bb8f5acdc3 local={local} (partial removed)")
            );
        }
        Ok(()) => panic!("the checksums differ"),
    }
    match check_contents(" \n", b"hello") {
        Err(fault) => {
            assert!(matches!(fault, Md5Fault::Empty));
            assert_eq!(fault_message(&fault, "/d/f", "https://x/f.md5", &local), "empty md5 sidecar at https://x/f.md5");
        }
        Ok(()) => panic!("nothing is published"),
    }
}

#[test]
fn comment_lines_are_kept_as_they_stand() {
    let s = "#x\n#  two \n#\ntimestamp=2026-01-01T00\\:00\\:00Z\nsequenceNumber=1\n";
    let state = ReplicationState::parse(s).unwrap();
    assert_eq!(state.comments, vec!["x", "  two ", ""]);
    assert_eq!(state.to_string_wire(), s);
}

#[test]
fn lines_with_other_keys_are_carried_on() {
    let s = "# one\n txnMaxQueried = 7 \ntimestamp=2026-01-01T00\\:00\\:00Z\nsequenceNumber=1\ntxnReadyList=\n";
    let state = ReplicationState::parse(s).unwrap();
    assert_eq!(state.comments, vec![" one", "txnMaxQueried = 7", "txnReadyList="]);
    let wire = state.to_string_wire();
    let kept = "# one\n#txnMaxQueried = 7\n#txnReadyList=\ntimestamp=2026-01-01T00\\:00\\:00Z\nsequenceNumber=1\n";
    assert_eq!(wire, kept);
    assert_eq!(ReplicationState::parse(&wire).unwrap().to_string_wire(), kept);
}
