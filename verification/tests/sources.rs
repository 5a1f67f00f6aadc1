use query_server::fetch::{FetchOpts, FetchOutcome};
use query_server::sources::{
    asks_for_tag, candidate_months, dbip_is_current, dbip_tag, dbip_url, dest_for, exceeds_cap, fallback_disabled,
    finish_resume, is_current, list_url, maxmind_url, meta_after, meta_sidecar, mmdb_source, normalize_etag, parse_scopes,
    partial_choice, plan_row, source_sidecar_text, state_sidecar, tar_step, target_for, MmdbSource, Month, OaApiRow,
    PartialChoice, S3Meta, TarStep, MAX_MMDB_BYTES, SKIP_REASON,
};

#[test]
fn parse_scopes_all_or_empty_yields_global() {
    assert!(parse_scopes("").is_empty());
    assert!(parse_scopes("all").is_empty());
    assert!(parse_scopes("ALL").is_empty());
    assert!(parse_scopes("  ").is_empty());
}

#[test]
fn parse_scopes_country_list() {
    assert_eq!(parse_scopes("au nz fj"), vec!["au", "nz", "fj"]);
    assert_eq!(parse_scopes("au, nz,fj"), vec!["au", "nz", "fj"]);
}

#[test]
fn s3meta_roundtrip() {
    let meta = S3Meta {
        etag: "abc123".to_string(),
        length: 4096,
    };
    let parsed = S3Meta::parse(&meta.render()).expect("parse roundtrip");
    assert_eq!(parsed.etag, meta.etag);
    assert_eq!(parsed.length, meta.length);
}

#[test]
fn s3meta_handles_quoted_etag() {
    let s = "etag=\"abc-123\"\nlength=42\n";
    let parsed = S3Meta::parse(s).expect("parse");
    assert_eq!(parsed.etag, "abc-123");
    assert_eq!(parsed.length, 42);
}

#[test]
fn s3meta_missing_field_returns_none() {
    assert!(S3Meta::parse("etag=abc").is_none());
    assert!(S3Meta::parse("length=42").is_none());
    assert!(S3Meta::parse("").is_none());
}

#[test]
fn target_filename_matches_url_basename() {
    let target = target_for("/data/pbf", "https://download.geofabrik.de/australia-oceania-latest.osm.pbf");
    assert_eq!(target.dest, "/data/pbf/australia-oceania-latest.osm.pbf");
    assert!(target.md5_url.is_some());
}

#[test]
fn target_for_planet_has_no_md5_sidecar() {
    let target = target_for("/data/pbf", "https://planet.openstreetmap.org/pbf/planet-latest.osm.pbf");
    assert_eq!(target.dest, "/data/pbf/planet-latest.osm.pbf");
    assert!(target.md5_url.is_none(), "planet.osm.org doesn't publish .md5 sidecars");
}

#[test]
fn target_filename_falls_back_when_url_has_no_basename() {
    let target = target_for("/data/pbf", "https://example.com/");
    assert_eq!(target.dest, "/data/pbf/download.osm.pbf");
}

#[test]
fn files_and_sidecars_are_named() {
    assert_eq!(dest_for("/d", Some("a.pbf")), "/d/a.pbf");
    assert_eq!(dest_for("/d", None), "/d/download.osm.pbf");
    assert_eq!(state_sidecar("/d/a.pbf"), "/d/a.pbf.state.txt");
    assert_eq!(meta_sidecar("/d/a.zip"), "/d/a.zip.s3meta");
}

#[test]
fn the_list_is_asked_per_prefix() {
    assert_eq!(list_url(None), "https://batch.openaddresses.io/api/data?layer=addresses");
    assert_eq!(list_url(Some("au")), "https://batch.openaddresses.io/api/data?layer=addresses&source=au");
}

fn row(job: Option<u64>, source: Option<&str>, cache: Option<bool>) -> OaApiRow {
    OaApiRow { job, source: source.map(|s| s.to_string()), cache }
}

#[test]
fn a_listed_row_becomes_a_download() {
    let plan = plan_row(&row(Some(12), Some("au/nsw"), Some(true)), "/oa").ok().unwrap();
    assert_eq!(plan.job, 12);
    assert_eq!(plan.source, "au/nsw");
    assert_eq!(plan.key, "jobs/12/cache.zip");
    assert_eq!(plan.dest, "/oa/au_nsw.cache.zip");
    assert_eq!(plan_row(&row(Some(1), Some("nz"), None), "/oa").ok().unwrap().key, "jobs/1/source.geojson.gz");
    assert_eq!(plan_row(&row(None, Some("au/nsw"), None), "/oa").err(), Some("OA API row missing 'job' field"));
}

fn opts(force: bool, resume: bool) -> FetchOpts {
    FetchOpts { force, verify_md5: true, resume, show_progress: false }
}

#[test]
fn a_current_object_is_not_fetched_again() {
    let meta = S3Meta { etag: "abc".to_string(), length: 10 };
    assert_eq!(normalize_etag("\"abc\""), "abc");
    assert!(is_current(Some("\"abc\""), &meta));
    assert!(!is_current(Some("\"abd\""), &meta));
    assert!(!is_current(None, &meta));
    assert!(asks_for_tag(&opts(false, true), true, Some(&meta)));
    assert!(!asks_for_tag(&opts(true, true), true, Some(&meta)));
    assert!(!asks_for_tag(&opts(false, true), false, Some(&meta)));
    assert!(!asks_for_tag(&opts(false, true), true, None));
}

#[test]
fn a_part_of_a_known_object_is_resumed() {
    let meta = Some(S3Meta { etag: "abc".to_string(), length: 100 });
    match partial_choice(&opts(false, true), Some(40), &meta) {
        PartialChoice::Resume { range, if_match } => {
            assert_eq!(range, "bytes=40-");
            assert!(if_match.contains("abc"));
        }
        _ => panic!("expected to resume"),
    }
    assert!(matches!(partial_choice(&opts(false, true), None, &meta), PartialChoice::Nothing));
    assert!(matches!(partial_choice(&opts(false, true), Some(40), &None), PartialChoice::Remove));
}

#[test]
fn a_resumed_object_has_its_length() {
    let saved = S3Meta { etag: "abc".to_string(), length: 100 };
    assert!(matches!(finish_resume(40, 60, &saved), Ok(FetchOutcome::Resumed { bytes: 60, total: 100 })));
    assert!(finish_resume(40, 59, &saved).is_err());
    let meta = meta_after(Some("\"q\""), 7).unwrap();
    assert_eq!((meta.etag.as_str(), meta.length), ("q", 7));
    assert!(meta_after(None, 7).is_none());
}

#[test]
fn the_ip_database_comes_from_where_it_can() {
    assert!(matches!(mmdb_source(Some("k"), None), MmdbSource::Licensed(_)));
    assert!(matches!(mmdb_source(None, None), MmdbSource::Free));
    assert!(matches!(mmdb_source(Some(""), Some("true")), MmdbSource::Free));
    match mmdb_source(None, Some("false")) {
        MmdbSource::Skip(reason) => assert_eq!(reason, SKIP_REASON),
        _ => panic!("expected to skip"),
    }
    assert!(fallback_disabled(Some("0")));
    assert!(!fallback_disabled(Some("yes")));
    assert!(maxmind_url("KEY").contains("license_key=KEY"));
}

#[test]
fn this_month_then_the_last() {
    let months = candidate_months(Month { year: 2026, month: 1 });
    assert_eq!((months[0].year, months[0].month), (2026, 1));
    assert_eq!((months[1].year, months[1].month), (2025, 12));
    assert!(dbip_url(&months[1]).contains("2025-12"));
    assert!(dbip_tag(&months[0]).contains("2026-01"));
}

#[test]
fn a_months_file_is_found_again() {
    let m = Month { year: 2026, month: 4 };
    let note = source_sidecar_text(&dbip_tag(&m), "download", "2026-04-25T00:00:00Z");
    assert!(dbip_is_current(&opts(false, true), true, Some(&note), &m));
    assert!(!dbip_is_current(&opts(true, true), true, Some(&note), &m));
    assert!(!dbip_is_current(&opts(false, true), true, Some(&note), &Month { year: 2026, month: 5 }));
    assert!(!dbip_is_current(&opts(false, true), false, Some(&note), &m));
}

#[test]
fn an_archive_gives_up_one_file() {
    assert!(matches!(tar_step(Some("GeoLite2-City.mmdb"), false), TarStep::Extract));
    assert!(matches!(tar_step(Some("README.txt"), false), TarStep::Pass));
    assert!(matches!(tar_step(Some("GeoLite2-City.mmdb"), true), TarStep::Stop));
    assert!(exceeds_cap(MAX_MMDB_BYTES + 1));
    assert!(!exceeds_cap(MAX_MMDB_BYTES));
}
