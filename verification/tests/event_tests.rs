use relay_core::{
    index_tags, legacy_ref_value, migration_sql, single_char_tagname, upgrade_plan, Event,
    TagValue, DB_VERSION, INIT_SQL,
};

fn hex64(prefix: &str) -> String {
    let mut s = String::from(prefix);
    while s.len() < 64 {
        s.push('0');
    }
    s
}

fn valid_event() -> Event {
    Event {
        id: hex64("aa01"),
        pubkey: hex64("bb02"),
        delegated_by: None,
        created_at: 1000,
        kind: 1,
        tags: vec![],
        content: String::from("hi"),
        sig: "ab".repeat(64),
    }
}

#[test]
fn structural_validation() {
    assert!(valid_event().validate_structure());
    let mut short_id = valid_event();
    short_id.id = "aa".to_string();
    assert!(!short_id.validate_structure());
    let mut upper = valid_event();
    upper.pubkey = hex64("BB02");
    assert!(!upper.validate_structure());
    let mut bad_sig = valid_event();
    bad_sig.sig = "zz".repeat(64);
    assert!(!bad_sig.validate_structure());
    let mut delegated = valid_event();
    delegated.delegated_by = Some(hex64("cc03"));
    assert!(delegated.validate_structure());
    delegated.delegated_by = Some("cc".to_string());
    assert!(!delegated.validate_structure());
}

#[test]
fn kind_classification() {
    let mut ev = valid_event();
    ev.kind = 20001;
    assert!(ev.is_ephemeral());
    ev.kind = 30000;
    assert!(!ev.is_ephemeral());
    ev.kind = 0;
    assert!(ev.is_kind_metadata() && ev.is_replaceable());
    ev.kind = 3;
    assert!(ev.is_replaceable());
    ev.kind = 10000;
    assert!(ev.is_replaceable());
    ev.kind = 1;
    assert!(!ev.is_replaceable());
}

#[test]
fn tagname_single_char() {
    assert_eq!(single_char_tagname("e"), Some('e'));
    assert_eq!(single_char_tagname("p"), Some('p'));
    assert_eq!(single_char_tagname("ee"), None);
    assert_eq!(single_char_tagname(""), None);
}

#[test]
fn index_tags_splits_hex_and_text() {
    let mut ev = valid_event();
    ev.tags = vec![
        vec!["e".to_string(), "abcd".to_string()],
        vec!["p".to_string(), "not-hex".to_string()],
        vec!["subject".to_string(), "ignored".to_string()],
        vec!["x".to_string()],
        vec!["t".to_string(), "abc".to_string()],
    ];
    let rows = index_tags(&ev);
    assert_eq!(rows.len(), 3);
    assert_eq!(rows[0].name, 'e');
    match &rows[0].value {
        TagValue::Hex(b) => assert_eq!(b, &vec![0xab, 0xcd]),
        TagValue::Text(_) => panic!("even lowercase hex must be stored as bytes"),
    }
    assert_eq!(rows[1].name, 'p');
    match &rows[1].value {
        TagValue::Text(t) => assert_eq!(t, "not-hex"),
        TagValue::Hex(_) => panic!("plain text must be stored as text"),
    }
    // an odd-length hex-looking value stays text
    assert_eq!(rows[2].name, 't');
    match &rows[2].value {
        TagValue::Text(t) => assert_eq!(t, "abc"),
        TagValue::Hex(_) => panic!("odd-length values must be stored as text"),
    }
}

#[test]
fn upgrade_ladder() {
    assert_eq!(upgrade_plan(0), Ok(vec![0]));
    assert_eq!(upgrade_plan(1), Ok(vec![1, 2, 3, 4, 5, 6, 7, 8, 9, 10]));
    assert_eq!(upgrade_plan(9), Ok(vec![9, 10]));
    assert_eq!(upgrade_plan(11), Ok(vec![]));
    assert_eq!(upgrade_plan(12), Err(12));
    assert_eq!(DB_VERSION, 11);
}

#[test]
fn migration_sql_per_step() {
    assert_eq!(migration_sql(0), Some(INIT_SQL));
    assert!(INIT_SQL.contains("PRAGMA user_version = 11"));
    for step in 1..=10u64 {
        let sql = migration_sql(step).unwrap();
        assert!(sql.contains(&format!("user_version = {}", step + 1))
            || sql.contains(&format!("user_version={}", step + 1)));
    }
    assert_eq!(migration_sql(11), None);
}

#[test]
fn legacy_ref_rows() {
    assert_eq!(legacy_ref_value(&"abcd".to_string()), Some(Some(vec![0xab, 0xcd])));
    assert_eq!(legacy_ref_value(&"abc".to_string()), Some(None));
    assert_eq!(legacy_ref_value(&"ABCD".to_string()), None);
    assert_eq!(legacy_ref_value(&"xy".to_string()), None);
}
