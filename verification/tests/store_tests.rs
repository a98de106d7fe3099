use relay_core::{Event, IngestResult, ReqFilter, Store};

fn hex64(prefix: &str, fill: char) -> String {
    let mut s = String::from(prefix);
    while s.len() < 64 {
        s.push(fill);
    }
    s
}

fn event(id_prefix: &str, author_prefix: &str, created_at: i64, kind: u64) -> Event {
    Event {
        id: hex64(id_prefix, '0'),
        pubkey: hex64(author_prefix, '0'),
        delegated_by: None,
        created_at,
        kind,
        tags: vec![],
        content: format!("content-{}", id_prefix),
        sig: "ab".repeat(64),
    }
}

fn any_filter() -> ReqFilter {
    ReqFilter {
        ids: None,
        kinds: None,
        since: None,
        until: None,
        authors: None,
        limit: None,
        tags: None,
        force_no_match: false,
    }
}

#[test]
fn ingest_then_duplicate() {
    let mut store = Store::new();
    assert_eq!(store.ingest(event("aa01", "bb02", 1000, 1)), IngestResult::Saved);
    assert_eq!(store.ingest(event("aa01", "bb02", 1000, 1)), IngestResult::Duplicate);
    assert_eq!(store.len(), 1);
}

#[test]
fn replay_filters_by_author_prefix() {
    let mut store = Store::new();
    store.ingest(event("aa01", "bb02", 1000, 1));
    store.ingest(event("aa02", "cc03", 1001, 1));
    let mut f = any_filter();
    f.authors = Some(vec!["bb".to_string()]);
    let rows = store.replay(&f);
    assert_eq!(rows.len(), 1);
    assert_eq!(rows[0].content, "content-aa01");
    assert_eq!(rows[0].created_at, 1000);
}

#[test]
fn replay_oldest_first_without_limit() {
    let mut store = Store::new();
    store.ingest(event("aa01", "bb02", 300, 1));
    store.ingest(event("aa02", "bb02", 100, 1));
    store.ingest(event("aa03", "bb02", 200, 1));
    let rows = store.replay(&any_filter());
    let stamps: Vec<i64> = rows.iter().map(|r| r.created_at).collect();
    assert_eq!(stamps, vec![100, 200, 300]);
}

#[test]
fn replay_newest_first_with_limit() {
    let mut store = Store::new();
    store.ingest(event("aa01", "bb02", 300, 1));
    store.ingest(event("aa02", "bb02", 100, 1));
    store.ingest(event("aa03", "bb02", 200, 1));
    let mut f = any_filter();
    f.limit = Some(2);
    let rows = store.replay(&f);
    let stamps: Vec<i64> = rows.iter().map(|r| r.created_at).collect();
    assert_eq!(stamps, vec![300, 200]);
}

#[test]
fn replaceable_keeps_latest_per_author_kind() {
    let mut store = Store::new();
    // two metadata events by one author: only the newer stays visible
    assert_eq!(store.ingest(event("e301", "aaaa", 100, 0)), IngestResult::Saved);
    assert_eq!(store.ingest(event("e402", "aaaa", 200, 0)), IngestResult::Saved);
    let mut f = any_filter();
    f.authors = Some(vec!["aaaa".to_string()]);
    f.kinds = Some(vec![0]);
    let rows = store.replay(&f);
    assert_eq!(rows.len(), 1);
    assert_eq!(rows[0].content, "content-e402");
}

#[test]
fn replaceable_older_arrival_stays_hidden() {
    let mut store = Store::new();
    store.ingest(event("e402", "aaaa", 200, 0));
    store.ingest(event("e301", "aaaa", 100, 0));
    let rows = store.replay(&any_filter());
    assert_eq!(rows.len(), 1);
    assert_eq!(rows[0].content, "content-e402");
}

#[test]
fn hidden_events_never_replayed() {
    let mut store = Store::new();
    store.ingest(event("e301", "aaaa", 100, 10000));
    store.ingest(event("e402", "aaaa", 200, 10000));
    // the superseded record is stored but hidden
    assert_eq!(store.len(), 2);
    let rows = store.replay(&any_filter());
    assert_eq!(rows.len(), 1);
    assert_eq!(rows[0].created_at, 200);
}

#[test]
fn tag_round_trip_hex_value() {
    let mut store = Store::new();
    let mut ev = event("aa01", "bb02", 1000, 1);
    ev.tags = vec![vec!["e".to_string(), "abcd".to_string()]];
    store.ingest(ev);
    let mut f = any_filter();
    f.tags = Some(vec![relay_core::TagQuery { name: 'e', values: vec!["abcd".to_string()] }]);
    let rows = store.replay(&f);
    assert_eq!(rows.len(), 1);
    // a candidate that decodes to different bytes does not match
    let mut g = any_filter();
    g.tags = Some(vec![relay_core::TagQuery { name: 'e', values: vec!["abce".to_string()] }]);
    assert_eq!(store.replay(&g).len(), 0);
}

#[test]
fn time_bounds_are_exclusive() {
    let mut store = Store::new();
    store.ingest(event("aa01", "bb02", 100, 1));
    store.ingest(event("aa02", "bb02", 150, 1));
    store.ingest(event("aa03", "bb02", 200, 1));
    let mut f = any_filter();
    f.since = Some(100);
    f.until = Some(200);
    let rows = store.replay(&f);
    assert_eq!(rows.len(), 1);
    assert_eq!(rows[0].created_at, 150);
}
