//! Core logic of a nostr-style relay: hex prefix searches, filter
//! matching, SQL query compilation, the event store's dedup and
//! replaceable-event policy, writer decisions, broadcast-bus and
//! query-worker models, and the schema migration ladder.
use vstd::prelude::*;

pub mod bus;
pub mod conn;
pub mod event;
pub mod hexrange;
pub mod hexutil;
pub mod migration;
pub mod numfmt;
pub mod query;
pub mod store;
pub mod subscription;
pub mod worker;
pub mod writer;

pub use bus::Bus;
pub use bus::BusReceiver;
pub use bus::RecvOutcome;
pub use conn::ConnState;
pub use conn::lemma_close_stops_events;
pub use conn::ping_tick_closes;
pub use event::Event;
pub use event::TagRow;
pub use event::TagValue;
pub use event::index_tags;
pub use event::lemma_tag_value_blob_faithful;
pub use event::single_char_tagname;
pub use hexrange::HexSearch;
pub use hexrange::hex_range;
pub use hexrange::lemma_hex_search_matches;
pub use hexutil::hex_decode;
pub use hexutil::is_hex;
pub use hexutil::is_lower_hex;
pub use hexutil::lemma_hex_decode_injective;
pub use hexutil::lemma_hex_round_trip;
pub use migration::DB_VERSION;
pub use migration::INIT_SQL;
pub use migration::STARTUP_SQL;
pub use migration::legacy_ref_value;
pub use migration::migration_sql;
pub use migration::upgrade_plan;
pub use query::QueryResult;
pub use query::SqlParam;
pub use query::query_from_filter;
pub use query::query_from_sub;
pub use query::repeat_vars;
pub use store::EventRow;
pub use store::IngestResult;
pub use store::Store;
pub use store::lemma_has_id_monotone;
pub use store::lemma_ingest_idempotent;
pub use store::lemma_ingest_slot_coherent;
pub use store::lemma_ingest_unique_ids;
pub use store::lemma_replay_membership;
pub use subscription::ReqFilter;
pub use subscription::Subscription;
pub use subscription::TagQuery;
pub use subscription::str_starts_with;
pub use worker::cancel_poll_due;
pub use worker::eose_sentinel;
pub use worker::lemma_eose_separates;
pub use worker::should_abort_slow;
pub use worker::worker_output;
pub use writer::EventResult;
pub use writer::GateDecision;
pub use writer::PersistDecision;
pub use writer::PersistOutcome;
pub use writer::ingest_gate;
pub use writer::persist_decision;
pub use writer::EventResultStatus;
pub use writer::Notice;
pub use writer::RateAction;
pub use writer::VerificationOutcome;
pub use writer::WriterConfig;
pub use writer::WriterOutput;
pub use writer::lemma_duplicate_submissions;
pub use writer::optimize_tick;
pub use writer::rate_limit_action;
pub use writer::writer_step;
