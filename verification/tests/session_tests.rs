use relay_core::{
    cancel_poll_due, eose_sentinel, should_abort_slow, worker_output, Bus, BusReceiver, ConnState,
    Event, RecvOutcome, ReqFilter, Subscription,
};

fn hex64(prefix: &str) -> String {
    let mut s = String::from(prefix);
    while s.len() < 64 {
        s.push('0');
    }
    s
}

fn kind_filter(kind: u64) -> ReqFilter {
    ReqFilter {
        ids: None,
        kinds: Some(vec![kind]),
        since: None,
        until: None,
        authors: None,
        limit: None,
        tags: None,
        force_no_match: false,
    }
}

fn sub(id: &str, kind: u64) -> Subscription {
    Subscription { id: id.to_string(), filters: vec![kind_filter(kind)] }
}

fn event(kind: u64) -> Event {
    Event {
        id: hex64("aa01"),
        pubkey: hex64("bb02"),
        delegated_by: None,
        created_at: 1000,
        kind,
        tags: vec![],
        content: String::from("hi"),
        sig: "ab".repeat(64),
    }
}

#[test]
fn completed_query_ends_with_single_eose() {
    let rows = vec!["r1".to_string(), "r2".to_string(), "r3".to_string()];
    let sub_id = "s1".to_string();
    let out = worker_output(&rows, &sub_id, None);
    assert_eq!(out.len(), 4);
    assert_eq!(out[0].event, "r1");
    assert_eq!(out[1].event, "r2");
    assert_eq!(out[2].event, "r3");
    assert_eq!(out[3].event, "EOSE");
    assert!(out.iter().all(|q| q.sub_id == "s1"));
    assert_eq!(out.iter().filter(|q| q.event == "EOSE").count(), 1);
}

#[test]
fn cancelled_query_stops_within_one_batch() {
    let rows: Vec<String> = (0..250).map(|i| format!("row{}", i)).collect();
    let sub_id = "s2".to_string();
    // the close arrives after five rows have been streamed
    let out = worker_output(&rows, &sub_id, Some(5));
    assert_eq!(out.len(), 100);
    assert!(out.iter().all(|q| q.event != "EOSE"));
    // a close before the first row stops the query immediately
    let out = worker_output(&rows, &sub_id, Some(0));
    assert_eq!(out.len(), 0);
}

#[test]
fn cancellation_after_last_row_still_completes() {
    let rows = vec!["r1".to_string()];
    let sub_id = "s3".to_string();
    let out = worker_output(&rows, &sub_id, Some(50));
    assert_eq!(out.len(), 2);
    assert_eq!(out[1].event, "EOSE");
}

#[test]
fn poll_and_eviction_decisions() {
    assert!(cancel_poll_due(0));
    assert!(!cancel_poll_due(150));
    assert!(cancel_poll_due(200));
    assert!(!should_abort_slow(4000, 0));
    assert!(should_abort_slow(5001, 0));
    let s = eose_sentinel("s9".to_string());
    assert_eq!(s.sub_id, "s9");
    assert_eq!(s.event, "EOSE");
}

#[test]
fn close_stops_forwarding() {
    let mut conn = ConnState::new();
    conn.handle_req(sub("s1", 1));
    conn.handle_req(sub("s2", 1));
    let matches = conn.live_matches(&event(1));
    assert_eq!(matches, vec!["s1".to_string(), "s2".to_string()]);
    let had = conn.handle_close(&"s1".to_string());
    assert!(had);
    let matches = conn.live_matches(&event(1));
    assert_eq!(matches, vec!["s2".to_string()]);
    assert!(!conn.handle_close(&"s1".to_string()));
}

#[test]
fn replacing_req_reports_prior_query() {
    let mut conn = ConnState::new();
    assert!(!conn.handle_req(sub("s1", 1)));
    assert!(conn.handle_req(sub("s1", 2)));
    assert_eq!(conn.len(), 1);
    // the replacement's filters are in force
    assert_eq!(conn.live_matches(&event(1)).len(), 0);
    assert_eq!(conn.live_matches(&event(2)), vec!["s1".to_string()]);
}

#[test]
fn non_matching_events_not_forwarded() {
    let mut conn = ConnState::new();
    conn.handle_req(sub("s1", 7));
    assert_eq!(conn.live_matches(&event(8)).len(), 0);
}

#[test]
fn bus_delivers_in_publish_order() {
    let mut bus = Bus::new(8);
    let mut rx = BusReceiver::subscribe(&bus);
    bus.publish("m1".to_string());
    bus.publish("m2".to_string());
    match rx.recv(&bus) {
        RecvOutcome::Message(m) => assert_eq!(m, "m1"),
        _ => panic!("expected a message"),
    }
    match rx.recv(&bus) {
        RecvOutcome::Message(m) => assert_eq!(m, "m2"),
        _ => panic!("expected a message"),
    }
    match rx.recv(&bus) {
        RecvOutcome::Empty => {}
        _ => panic!("expected no message"),
    }
}

#[test]
fn lagged_subscriber_resumes_in_order() {
    let mut bus = Bus::new(1);
    let mut rx = BusReceiver::subscribe(&bus);
    bus.publish("m1".to_string());
    bus.publish("m2".to_string());
    bus.publish("m3".to_string());
    match rx.recv(&bus) {
        RecvOutcome::Lagged => {}
        _ => panic!("expected the lag signal"),
    }
    match rx.recv(&bus) {
        RecvOutcome::Message(m) => assert_eq!(m, "m3"),
        _ => panic!("expected a message"),
    }
}

#[test]
fn drain_hands_back_a_suffix() {
    let mut bus = Bus::new(2);
    let mut rx = BusReceiver::subscribe(&bus);
    for m in ["m1", "m2", "m3", "m4"] {
        bus.publish(m.to_string());
    }
    let (lagged, msgs) = rx.drain(&bus);
    assert!(lagged);
    assert_eq!(msgs, vec!["m3".to_string(), "m4".to_string()]);
    let (lagged, msgs) = rx.drain(&bus);
    assert!(!lagged);
    assert_eq!(msgs.len(), 0);
}

#[test]
fn ingest_then_replay_then_stream() {
    // submit an event, replay the author's history, stream it with the
    // sentinel after it
    let mut store = relay_core::Store::new();
    let mut bus = relay_core::Bus::new(16);
    let ev = relay_core::Event {
        id: hex64("aa01"),
        pubkey: hex64("bb02"),
        delegated_by: None,
        created_at: 1000,
        kind: 1,
        tags: vec![],
        content: String::from("hi"),
        sig: "ab".repeat(64),
    };
    let cfg = relay_core::WriterConfig {
        pubkey_whitelist: None,
        nip05_active: false,
        nip05_enabled: false,
    };
    let out = relay_core::writer_step(&mut store, &mut bus, &cfg, ev,
        relay_core::VerificationOutcome::Valid);
    assert!(out.notice.is_some());
    let mut f = kind_filter(1);
    f.authors = Some(vec!["bb".to_string()]);
    let rows = store.replay(&f);
    let contents: Vec<String> = rows.iter().map(|r| r.content.clone()).collect();
    let stream = worker_output(&contents, &"s1".to_string(), None);
    assert_eq!(stream.len(), 2);
    assert_eq!(stream[0].event, "hi");
    assert_eq!(stream[1].event, "EOSE");
}

#[test]
fn idle_connections_close_at_ping_tick() {
    assert!(!relay_core::ping_tick_closes(1200000, 0));
    assert!(relay_core::ping_tick_closes(1200001, 0));
    assert!(!relay_core::ping_tick_closes(1500000, 400000));
}
