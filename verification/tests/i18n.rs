use query_server::i18n::{
    pack_lang_code, I18nNames, I18nRecord, ALIAS_ALT, ALIAS_INT, ALIAS_INT_REF, ALIAS_LOC, ALIAS_NAT_REF, ALIAS_OFFICIAL,
    ALIAS_OLD, ALIAS_PRIMARY, ALIAS_REF, ALIAS_REG, ALIAS_SHORT, ENTITY_ADMIN, ENTITY_PLACE, ENTITY_POI,
};

fn record(entity_type: u8, alias_type: u8, lang_code: u16, entity_id: u32, name_id: u32) -> I18nRecord {
    I18nRecord { entity_type, alias_type, lang_code, entity_id, name_id, _pad1: 0 }
}

/// The records in the order and layout of the names file.
fn file_of(mut recs: Vec<I18nRecord>) -> Vec<u8> {
    recs.sort_by_key(|r| (r.entity_type, r.entity_id, r.alias_type, r.lang_code));
    let mut out: Vec<u8> = Vec::new();
    for r in &recs {
        out.push(r.entity_type);
        out.push(r.alias_type);
        out.extend_from_slice(&r.lang_code.to_le_bytes());
        out.extend_from_slice(&r.entity_id.to_le_bytes());
        out.extend_from_slice(&r.name_id.to_le_bytes());
        out.extend_from_slice(&r._pad1.to_le_bytes());
    }
    out
}

#[test]
fn record_is_16_bytes() {
    assert_eq!(std::mem::size_of::<I18nRecord>(), 16);
}

#[test]
fn lang_packing_roundtrip() {
    assert_eq!(pack_lang_code("en"), Some(('e' as u16) | (('n' as u16) << 8)));
    assert_eq!(pack_lang_code("FR"), Some(('f' as u16) | (('r' as u16) << 8)));
    // Extended tags — we take the first two letters.
    assert_eq!(pack_lang_code("en-US"), pack_lang_code("en"));
    assert_eq!(pack_lang_code("zh-Hant"), pack_lang_code("zh"));
    // Rejected inputs.
    assert_eq!(pack_lang_code(""), None);
    assert_eq!(pack_lang_code("x"), None);
    assert_eq!(pack_lang_code("12"), None);
}

#[test]
fn alias_and_entity_constants_are_distinct() {
    let aliases: [u8; 11] = [
        ALIAS_PRIMARY, ALIAS_OFFICIAL, ALIAS_ALT, ALIAS_SHORT,
        ALIAS_OLD, ALIAS_LOC, ALIAS_INT, ALIAS_REG, ALIAS_REF,
        ALIAS_INT_REF, ALIAS_NAT_REF,
    ];
    let mut sorted: Vec<u8> = aliases.to_vec();
    sorted.sort();
    sorted.dedup();
    assert_eq!(
        sorted.len(),
        aliases.len(),
        "duplicate ALIAS_* constants: {aliases:?}"
    );
    let entities: [u8; 3] = [ENTITY_ADMIN, ENTITY_PLACE, ENTITY_POI];
    let mut esorted: Vec<u8> = entities.to_vec();
    esorted.sort();
    esorted.dedup();
    assert_eq!(esorted.len(), entities.len(), "duplicate ENTITY_* constants");
}

#[test]
fn alternates_for_yields_alias_type_and_lang() {
    let data = file_of(vec![
        record(ENTITY_POI, ALIAS_PRIMARY, pack_lang_code("en").unwrap(), 100, 1),
        record(ENTITY_POI, ALIAS_SHORT, 0, 100, 2),
        record(ENTITY_POI, ALIAS_OLD, 0, 100, 3),
        record(ENTITY_POI, ALIAS_PRIMARY, pack_lang_code("fr").unwrap(), 200, 999),
    ]);
    let names = I18nNames::open(&data).unwrap().unwrap();
    let walked: Vec<(u8, u16, u32)> = names.alternates_for(ENTITY_POI, 100);
    assert_eq!(walked.len(), 3, "entity 100 has three aliases");
    assert_eq!(walked[0].0, ALIAS_PRIMARY);
    assert_eq!(walked[0].1, pack_lang_code("en").unwrap());
    assert_eq!(walked[0].2, 1, "PRIMARY:en has name_id 1");
    assert_eq!(walked[1].0, ALIAS_SHORT);
    assert_eq!(walked[1].2, 2, "SHORT:0 has name_id 2");
    assert_eq!(walked[2].0, ALIAS_OLD);
    assert_eq!(walked[2].2, 3, "OLD:0 has name_id 3");
    assert!(walked.iter().all(|(_, _, nid)| *nid != 999));
}

#[test]
fn alias_type_distinguishes_resolution() {
    let data = file_of(vec![
        record(ENTITY_PLACE, ALIAS_PRIMARY, pack_lang_code("en").unwrap(), 42, 100),
        record(ENTITY_PLACE, ALIAS_OFFICIAL, 0, 42, 200),
        record(ENTITY_PLACE, ALIAS_ALT, 0, 42, 300),
    ]);
    let names = I18nNames::open(&data).unwrap().unwrap();
    let lookup = |alias: u8, lang: u16| -> Option<u32> { names.lookup(ENTITY_PLACE, 42, alias, lang) };
    assert_eq!(lookup(ALIAS_PRIMARY, pack_lang_code("en").unwrap()), Some(100));
    assert_eq!(lookup(ALIAS_OFFICIAL, 0), Some(200));
    assert_eq!(lookup(ALIAS_ALT, 0), Some(300));
    assert_eq!(lookup(ALIAS_PRIMARY, 0), None);
    assert_eq!(lookup(ALIAS_OFFICIAL, pack_lang_code("en").unwrap()), None);
}

#[test]
fn a_names_file_is_whole_records() {
    assert!(I18nNames::open(&[]).unwrap().is_none());
    assert!(I18nNames::open(&[0u8; 15]).is_err());
    let data = file_of(vec![record(ENTITY_ADMIN, ALIAS_PRIMARY, 0x1234, 7, 9)]);
    let names = I18nNames::open(&data).unwrap().unwrap();
    assert_eq!(names.len(), 1);
    let back = names.get(0);
    assert_eq!((back.entity_type, back.alias_type, back.lang_code), (ENTITY_ADMIN, ALIAS_PRIMARY, 0x1234));
    assert_eq!((back.entity_id, back.name_id), (7, 9));
}
