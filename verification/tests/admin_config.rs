use query_server::admin_config::{AdminConfig, AdminEntry, AdminField, RawAdminEntry, RawAdminSection, RawConfig, RawCountry};
use serde_json::Value;

fn field(opt: Option<AdminEntry>) -> Option<AdminField> {
    opt.map(|e| e.field)
}

fn field_of(name: &str) -> Option<AdminField> {
    match name {
        "country" => Some(AdminField::Country),
        "state" => Some(AdminField::State),
        "county" => Some(AdminField::County),
        "county_if_empty" => Some(AdminField::CountyIfEmpty),
        "city" => Some(AdminField::City),
        "city_if_empty" => Some(AdminField::CityIfEmpty),
        "postcode" => Some(AdminField::Postcode),
        "ignore" => Some(AdminField::Ignore),
        _ => None,
    }
}

fn section_of(v: Option<&Value>) -> RawAdminSection {
    let mut admin: Vec<(String, RawAdminEntry)> = Vec::new();
    let levels = v.and_then(|v| v.get("admin")).and_then(|a| a.as_object());
    if let Some(levels) = levels {
        for (level, entry) in levels {
            let raw = match entry.as_str() {
                Some(name) => RawAdminEntry::Field(field_of(name).expect("a known field")),
                None => RawAdminEntry::Detailed {
                    field: field_of(entry["field"].as_str().expect("a field")).expect("a known field"),
                    max_area: entry["max_area"].as_f64().map(|a| (a as f32).to_bits()),
                },
            };
            admin.push((level.clone(), raw));
        }
    }
    RawAdminSection { admin }
}

fn from_json(raw: &str) -> Option<AdminConfig> {
    let v: Value = serde_json::from_str(raw).ok()?;
    let mut countries: Vec<RawCountry> = Vec::new();
    if let Some(map) = v.get("countries").and_then(|c| c.as_object()) {
        for (code, section) in map {
            countries.push(RawCountry { code: code.clone(), section: section_of(Some(section)) });
        }
    }
    Some(AdminConfig::from_raw(&RawConfig { defaults: section_of(v.get("defaults")), countries }))
}

#[test]
fn defaults_map_admin_levels() {
    let cfg = AdminConfig::embedded_default();
    assert_eq!(field(cfg.lookup(None, 2)), Some(AdminField::Country));
    assert_eq!(field(cfg.lookup(None, 4)), Some(AdminField::State));
    assert_eq!(field(cfg.lookup(None, 6)), Some(AdminField::County));
    assert_eq!(field(cfg.lookup(None, 8)), Some(AdminField::City));
    assert_eq!(field(cfg.lookup(None, 11)), Some(AdminField::Postcode));
}

#[test]
fn au_overrides_level_6_to_county_and_9_to_city() {
    let cfg = AdminConfig::embedded_default();
    assert_eq!(field(cfg.lookup(Some("AU"), 6)), Some(AdminField::County));
    assert_eq!(field(cfg.lookup(Some("AU"), 9)), Some(AdminField::City));
    assert_eq!(field(cfg.lookup(Some("AU"), 7)), Some(AdminField::CountyIfEmpty));
}

#[test]
fn au_level_9_has_max_area_cap() {
    let cfg = AdminConfig::embedded_default();
    let entry = cfg.lookup(Some("AU"), 9).expect("AU level 9 should resolve in the embedded default");
    assert_eq!(entry.field, AdminField::City);
    let cap = f32::from_bits(entry.max_area.expect("AU level 9 entry should carry max_area cap"));
    assert!(cap > 0.01 && cap < 0.1, "cap {cap} should be in urban-suburb range");
}

#[test]
fn nz_overrides_level_6_to_city() {
    let cfg = AdminConfig::embedded_default();
    assert_eq!(field(cfg.lookup(Some("NZ"), 6)), Some(AdminField::City));
    assert_eq!(field(cfg.lookup(Some("NZ"), 10)), Some(AdminField::CountyIfEmpty));
}

#[test]
fn unknown_country_uses_defaults() {
    let cfg = AdminConfig::embedded_default();
    assert_eq!(field(cfg.lookup(Some("XX"), 6)), Some(AdminField::County));
    assert_eq!(field(cfg.lookup(Some("XX"), 8)), Some(AdminField::City));
}

#[test]
fn explicit_ignore_returns_none_and_blocks_default() {
    let cfg = from_json(
        r#"{"defaults":{"admin":{"6":"county"}},"countries":{"AU":{"admin":{"6":"ignore"}}}}"#,
    )
    .expect("test fixture parses");
    assert_eq!(field(cfg.lookup(Some("AU"), 6)), None);
    assert_eq!(field(cfg.lookup(None, 6)), Some(AdminField::County));
}

#[test]
fn detailed_entry_parses_max_area() {
    let cfg = from_json(
        r#"{"countries":{"AU":{"admin":{"9":{"field":"city","max_area":0.05}}}}}"#,
    )
    .expect("test fixture parses");
    let entry = cfg.lookup(Some("AU"), 9).expect("AU level 9 present");
    assert_eq!(entry.field, AdminField::City);
    assert_eq!(entry.max_area.map(f32::from_bits), Some(0.05));
}

#[test]
fn country_code_is_case_insensitive() {
    let cfg = AdminConfig::embedded_default();
    assert_eq!(field(cfg.lookup(Some("au"), 9)), Some(AdminField::City));
    assert_eq!(field(cfg.lookup(Some("Au"), 9)), Some(AdminField::City));
}

#[test]
fn levels_are_bytes() {
    let cfg = from_json(
        r#"{"defaults":{"admin":{"12":"state","x":"city","-1":"city","300":"city","8":"city","255":"county"}}}"#,
    )
    .expect("parses");
    assert_eq!(field(cfg.lookup(None, 12)), Some(AdminField::State));
    assert_eq!(field(cfg.lookup(None, 8)), Some(AdminField::City));
    assert_eq!(field(cfg.lookup(None, 255)), Some(AdminField::County));
    assert_eq!(field(cfg.lookup(None, 44)), None);
    assert_eq!(field(cfg.lookup(None, 1)), None);
}
