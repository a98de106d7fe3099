use relay_core::{
    ingest_gate, optimize_tick, persist_decision, rate_limit_action, writer_step, Bus, Event,
    EventResultStatus, GateDecision, Notice, PersistOutcome, Store, VerificationOutcome,
    WriterConfig,
};

fn hex64(prefix: &str) -> String {
    let mut s = String::from(prefix);
    while s.len() < 64 {
        s.push('0');
    }
    s
}

fn event(id_prefix: &str, author_prefix: &str, created_at: i64, kind: u64) -> Event {
    Event {
        id: hex64(id_prefix),
        pubkey: hex64(author_prefix),
        delegated_by: None,
        created_at,
        kind,
        tags: vec![],
        content: String::from("hi"),
        sig: "ab".repeat(64),
    }
}

fn open_config() -> WriterConfig {
    WriterConfig { pubkey_whitelist: None, nip05_active: false, nip05_enabled: false }
}

fn status_of(n: &Option<Notice>) -> Option<EventResultStatus> {
    match n {
        Some(Notice::EventResult(er)) => Some(er.status),
        _ => None,
    }
}

#[test]
fn fresh_event_saved_and_broadcast() {
    let mut store = Store::new();
    let mut bus = Bus::new(16);
    let out = writer_step(&mut store, &mut bus, &open_config(), event("aa01", "bb02", 1000, 1),
        VerificationOutcome::Valid);
    assert_eq!(status_of(&out.notice), Some(EventResultStatus::Saved));
    assert!(out.counted_write);
    assert!(!out.forward_metadata);
    assert_eq!(store.len(), 1);
    assert_eq!(bus.log.len(), 1);
    assert_eq!(bus.log[0], hex64("aa01"));
}

#[test]
fn duplicate_submission_notices_without_rebroadcast() {
    let mut store = Store::new();
    let mut bus = Bus::new(16);
    writer_step(&mut store, &mut bus, &open_config(), event("aa01", "bb02", 1000, 1),
        VerificationOutcome::Valid);
    let out = writer_step(&mut store, &mut bus, &open_config(), event("aa01", "bb02", 1000, 1),
        VerificationOutcome::Valid);
    assert_eq!(status_of(&out.notice), Some(EventResultStatus::Duplicate));
    assert!(!out.counted_write);
    // the bus published the id exactly once
    assert_eq!(bus.log.len(), 1);
    assert_eq!(store.len(), 1);
}

#[test]
fn ephemeral_broadcast_only() {
    let mut store = Store::new();
    let mut bus = Bus::new(16);
    let out = writer_step(&mut store, &mut bus, &open_config(), event("ee01", "bb02", 1000, 20001),
        VerificationOutcome::Valid);
    assert!(out.notice.is_none());
    assert!(out.counted_write);
    assert_eq!(store.len(), 0);
    assert_eq!(bus.log.len(), 1);
}

#[test]
fn whitelist_blocks_unlisted_author() {
    let mut store = Store::new();
    let mut bus = Bus::new(16);
    let cfg = WriterConfig {
        pubkey_whitelist: Some(vec![hex64("cc03")]),
        nip05_active: false,
        nip05_enabled: false,
    };
    let out = writer_step(&mut store, &mut bus, &cfg, event("aa01", "bb02", 1000, 1),
        VerificationOutcome::Valid);
    assert_eq!(status_of(&out.notice), Some(EventResultStatus::Blocked));
    assert_eq!(store.len(), 0);
    assert_eq!(bus.log.len(), 0);
}

#[test]
fn whitelisted_author_passes() {
    let mut store = Store::new();
    let mut bus = Bus::new(16);
    let cfg = WriterConfig {
        pubkey_whitelist: Some(vec![hex64("bb02")]),
        nip05_active: false,
        nip05_enabled: false,
    };
    let out = writer_step(&mut store, &mut bus, &cfg, event("aa01", "bb02", 1000, 1),
        VerificationOutcome::Valid);
    assert_eq!(status_of(&out.notice), Some(EventResultStatus::Saved));
}

#[test]
fn verification_gate() {
    let cfg = WriterConfig { pubkey_whitelist: None, nip05_active: true, nip05_enabled: true };
    let mut store = Store::new();
    let mut bus = Bus::new(16);
    let out = writer_step(&mut store, &mut bus, &cfg, event("aa01", "bb02", 1000, 1),
        VerificationOutcome::NoRows);
    assert_eq!(status_of(&out.notice), Some(EventResultStatus::Blocked));
    let out = writer_step(&mut store, &mut bus, &cfg, event("aa02", "bb02", 1000, 1),
        VerificationOutcome::Invalid);
    assert_eq!(status_of(&out.notice), Some(EventResultStatus::Blocked));
    // a failed lookup is an error notice; the event is not persisted
    let out = writer_step(&mut store, &mut bus, &cfg, event("aa03", "bb02", 1000, 1),
        VerificationOutcome::LookupFailed);
    assert_eq!(status_of(&out.notice), Some(EventResultStatus::Error));
    assert_eq!(store.len(), 0);
    assert_eq!(bus.log.len(), 0);
    // a valid record admits the event
    let out = writer_step(&mut store, &mut bus, &cfg, event("aa04", "bb02", 1000, 1),
        VerificationOutcome::Valid);
    assert_eq!(status_of(&out.notice), Some(EventResultStatus::Saved));
}

#[test]
fn metadata_forwarded_to_verifier() {
    let cfg = WriterConfig { pubkey_whitelist: None, nip05_active: true, nip05_enabled: false };
    let mut store = Store::new();
    let mut bus = Bus::new(16);
    let out = writer_step(&mut store, &mut bus, &cfg, event("aa01", "bb02", 1000, 0),
        VerificationOutcome::Valid);
    assert!(out.forward_metadata);
    assert_eq!(status_of(&out.notice), Some(EventResultStatus::Saved));
}

#[test]
fn optimize_counter_resets_past_trigger() {
    let mut counter: u64 = 0;
    let mut fired = 0;
    for _ in 0..501 {
        let (next, due) = optimize_tick(counter);
        counter = next;
        if due {
            fired += 1;
        }
    }
    assert_eq!(fired, 1);
    assert_eq!(counter, 0);
}

#[test]
fn rate_limit_log_suppression() {
    let a = rate_limit_action(250, 20000, 0);
    assert_eq!(a.sleep_millis, 250);
    assert!(a.log);
    assert_eq!(a.new_last_log_millis, 20000);
    let b = rate_limit_action(250, 25000, 20000);
    assert!(!b.log);
    assert_eq!(b.new_last_log_millis, 20000);
}

#[test]
fn notice_constructors_carry_id_and_status() {
    let n = Notice::saved(hex64("aa01"));
    match n {
        Notice::EventResult(er) => {
            assert_eq!(er.id, hex64("aa01"));
            assert_eq!(er.status, EventResultStatus::Saved);
        }
        Notice::Message(_) => panic!("expected an event result"),
    }
    let n = Notice::invalid(hex64("aa02"), "event was invalid");
    match n {
        Notice::EventResult(er) => {
            assert_eq!(er.status, EventResultStatus::Invalid);
            assert_eq!(er.msg, "event was invalid");
        }
        Notice::Message(_) => panic!("expected an event result"),
    }
    let n = Notice::error(hex64("aa03"), "relay experienced an error");
    match n {
        Notice::EventResult(er) => assert_eq!(er.status, EventResultStatus::Error),
        Notice::Message(_) => panic!("expected an event result"),
    }
}

#[test]
fn gate_decisions_match_writer() {
    let cfg = WriterConfig { pubkey_whitelist: None, nip05_active: true, nip05_enabled: true };
    match ingest_gate(&cfg, &event("aa01", "bb02", 1000, 0), VerificationOutcome::Valid) {
        GateDecision::Admit { forward_metadata } => assert!(forward_metadata),
        GateDecision::Reject { .. } => panic!("a verified author must be admitted"),
    }
    match ingest_gate(&cfg, &event("aa02", "bb02", 1000, 1), VerificationOutcome::NoRows) {
        GateDecision::Reject { notice, forward_metadata } => {
            assert!(!forward_metadata);
            match notice {
                Notice::EventResult(er) => assert_eq!(er.status, EventResultStatus::Blocked),
                Notice::Message(_) => panic!("expected an event result"),
            }
        }
        GateDecision::Admit { .. } => panic!("an unverified author must be rejected"),
    }
    match ingest_gate(&cfg, &event("aa03", "bb02", 1000, 1), VerificationOutcome::LookupFailed) {
        GateDecision::Reject { notice, .. } => match notice {
            Notice::EventResult(er) => {
                assert_eq!(er.status, EventResultStatus::Error);
                assert_eq!(er.id, hex64("aa03"));
            }
            Notice::Message(_) => panic!("expected an event result"),
        },
        GateDecision::Admit { .. } => panic!("a failed lookup must be rejected"),
    }
}

#[test]
fn persist_decisions_per_outcome() {
    let d = persist_decision(hex64("aa01"), PersistOutcome::Inserted);
    assert!(d.broadcast && d.counted_write);
    match d.notice {
        Notice::EventResult(er) => assert_eq!(er.status, EventResultStatus::Saved),
        Notice::Message(_) => panic!("expected an event result"),
    }
    let d = persist_decision(hex64("aa01"), PersistOutcome::DuplicateRow);
    assert!(!d.broadcast && !d.counted_write);
    match d.notice {
        Notice::EventResult(er) => assert_eq!(er.status, EventResultStatus::Duplicate),
        Notice::Message(_) => panic!("expected an event result"),
    }
    let d = persist_decision(hex64("aa01"), PersistOutcome::Failed);
    assert!(!d.broadcast && !d.counted_write);
    match d.notice {
        Notice::EventResult(er) => {
            assert_eq!(er.status, EventResultStatus::Error);
            assert_eq!(er.id, hex64("aa01"));
        }
        Notice::Message(_) => panic!("expected an event result"),
    }
}
