//! The writer's decisions: authorization, identity gating, the
//! ephemeral shortcut, persistence with duplicate detection, fan-out,
//! and the rate-limit and maintenance bookkeeping. The writer never
//! fails the process on a single event: every outcome is a notice back
//! to the submitter, or silence where the original stays silent.
use vstd::prelude::*;

use crate::bus::{msg_models, Bus};
use crate::event::{Event, EventModel};
use crate::store::{spec_has_id, spec_ingest, IngestResult, Store, StoredEventModel};

verus! {

/// Outcome classes reported for one submitted event.
#[derive(PartialEq, Eq, Structural, Debug, Clone, Copy)]
pub enum EventResultStatus {
    Saved,
    Duplicate,
    Invalid,
    Blocked,
    RateLimited,
    Error,
}

/// A notice about one submitted event.
pub struct EventResult {
    pub id: String,
    pub msg: String,
    pub status: EventResultStatus,
}

/// A notice to a client: free text, or the outcome for one event.
pub enum Notice {
    Message(String),
    EventResult(EventResult),
}

/// Mathematical image of an `EventResult`.
pub struct EventResultModel {
    pub id: Seq<char>,
    pub msg: Seq<char>,
    pub status: EventResultStatus,
}

/// Mathematical image of a `Notice`.
pub enum NoticeModel {
    Message(Seq<char>),
    EventResult(EventResultModel),
}

impl View for EventResult {
    type V = EventResultModel;

    open spec fn view(&self) -> EventResultModel {
        EventResultModel { id: self.id@, msg: self.msg@, status: self.status }
    }
}

impl View for Notice {
    type V = NoticeModel;

    open spec fn view(&self) -> NoticeModel {
        match self {
            Notice::Message(m) => NoticeModel::Message(m@),
            Notice::EventResult(er) => NoticeModel::EventResult(er@),
        }
    }
}

/// The saved acknowledgement for an event id.
pub open spec fn spec_saved_notice(id: Seq<char>) -> NoticeModel {
    NoticeModel::EventResult(
        EventResultModel { id, msg: Seq::empty(), status: EventResultStatus::Saved },
    )
}

/// The duplicate notice for an event id.
pub open spec fn spec_duplicate_notice(id: Seq<char>) -> NoticeModel {
    NoticeModel::EventResult(
        EventResultModel { id, msg: Seq::empty(), status: EventResultStatus::Duplicate },
    )
}

/// The blocked notice for an event id.
pub open spec fn spec_blocked_notice(id: Seq<char>, msg: Seq<char>) -> NoticeModel {
    NoticeModel::EventResult(EventResultModel { id, msg, status: EventResultStatus::Blocked })
}

/// The internal-error notice for an event id.
pub open spec fn spec_error_notice(id: Seq<char>, msg: Seq<char>) -> NoticeModel {
    NoticeModel::EventResult(EventResultModel { id, msg, status: EventResultStatus::Error })
}

impl Notice {
    /// Acknowledge a persisted event.
    pub fn saved(id: String) -> (r: Notice)
        ensures
            r@ == spec_saved_notice(id@),
    {
        let r = Notice::EventResult(
            EventResult { id, msg: String::new(), status: EventResultStatus::Saved },
        );
        r
    }

    /// Report a duplicate submission.
    pub fn duplicate(id: String) -> (r: Notice)
        ensures
            r@ == spec_duplicate_notice(id@),
    {
        Notice::EventResult(EventResult { id, msg: String::new(), status: EventResultStatus::Duplicate })
    }

    /// Report a rejected submission.
    pub fn blocked(id: String, msg: &str) -> (r: Notice)
        ensures
            r@ == spec_blocked_notice(id@, msg@),
    {
        Notice::EventResult(EventResult { id, msg: msg.to_owned(), status: EventResultStatus::Blocked })
    }

    /// Report an invalid event.
    pub fn invalid(id: String, msg: &str) -> (r: Notice)
        ensures
            r@ == NoticeModel::EventResult(
                EventResultModel { id: id@, msg: msg@, status: EventResultStatus::Invalid },
            ),
    {
        Notice::EventResult(EventResult { id, msg: msg.to_owned(), status: EventResultStatus::Invalid })
    }

    /// Report an internal failure for an event.
    pub fn error(id: String, msg: &str) -> (r: Notice)
        ensures
            r@ == spec_error_notice(id@, msg@),
    {
        Notice::EventResult(EventResult { id, msg: msg.to_owned(), status: EventResultStatus::Error })
    }
}

/// What the writer read from the latest identity-verification record
/// for the author, supplied by the caller that performed the lookup.
#[derive(PartialEq, Eq, Structural, Debug, Clone, Copy)]
pub enum VerificationOutcome {
    /// A record exists and passes the configured policy.
    Valid,
    /// A record exists but is expired or for the wrong domain.
    Invalid,
    /// No record exists for the author.
    NoRows,
    /// The lookup itself failed.
    LookupFailed,
}

/// The writer's configuration snapshot.
pub struct WriterConfig {
    /// Authors allowed to publish; `None` admits everyone.
    pub pubkey_whitelist: Option<Vec<String>>,
    /// Metadata events are forwarded to the identity verifier.
    pub nip05_active: bool,
    /// Identity verification is required to publish.
    pub nip05_enabled: bool,
}

/// Mathematical image of a `WriterConfig`.
pub struct WriterConfigModel {
    pub pubkey_whitelist: Option<Seq<Seq<char>>>,
    pub nip05_active: bool,
    pub nip05_enabled: bool,
}

impl View for WriterConfig {
    type V = WriterConfigModel;

    open spec fn view(&self) -> WriterConfigModel {
        WriterConfigModel {
            pubkey_whitelist: match self.pubkey_whitelist {
                Some(v) => Some(v.deep_view()),
                None => None,
            },
            nip05_active: self.nip05_active,
            nip05_enabled: self.nip05_enabled,
        }
    }
}

/// What one writer step did.
pub struct WriterStepModel {
    /// The notice owed to the submitter, if any.
    pub notice: Option<NoticeModel>,
    /// The event was forwarded to the identity verifier.
    pub forward_metadata: bool,
    /// The step counts against the rate limit.
    pub counted_write: bool,
}

/// The exec-side record of one writer step.
pub struct WriterOutput {
    pub notice: Option<Notice>,
    pub forward_metadata: bool,
    pub counted_write: bool,
}

impl View for WriterOutput {
    type V = WriterStepModel;

    open spec fn view(&self) -> WriterStepModel {
        WriterStepModel {
            notice: match self.notice {
                Some(n) => Some(n@),
                None => None,
            },
            forward_metadata: self.forward_metadata,
            counted_write: self.counted_write,
        }
    }
}

/// The author is not admitted by a configured whitelist.
pub open spec fn spec_whitelist_rejects(cfg: WriterConfigModel, e: EventModel) -> bool {
    match cfg.pubkey_whitelist {
        None => false,
        Some(wl) => !wl.contains(e.pubkey),
    }
}

/// The admission gate's verdict for one submission: a notice that
/// rejects it, or admission, in either case saying whether the event
/// goes to the identity verifier.
pub enum GateDecision {
    Reject { notice: Notice, forward_metadata: bool },
    Admit { forward_metadata: bool },
}

/// Mathematical image of a `GateDecision`.
pub enum GateDecisionModel {
    Reject { notice: NoticeModel, forward_metadata: bool },
    Admit { forward_metadata: bool },
}

impl View for GateDecision {
    type V = GateDecisionModel;

    open spec fn view(&self) -> GateDecisionModel {
        match self {
            GateDecision::Reject { notice, forward_metadata } => GateDecisionModel::Reject {
                notice: notice@,
                forward_metadata: *forward_metadata,
            },
            GateDecision::Admit { forward_metadata } => GateDecisionModel::Admit {
                forward_metadata: *forward_metadata,
            },
        }
    }
}

/// The admission gate: an unlisted author is blocked before anything
/// else; metadata fan-out applies from here on; with verification
/// enforced, a missing or failing record blocks the event and a failed
/// lookup is an error notice — every rejection carries a notice.
pub open spec fn spec_ingest_gate(
    cfg: WriterConfigModel,
    e: EventModel,
    verif: VerificationOutcome,
) -> GateDecisionModel {
    if spec_whitelist_rejects(cfg, e) {
        GateDecisionModel::Reject {
            notice: spec_blocked_notice(e.id, "pubkey is not allowed to publish to this relay"@),
            forward_metadata: false,
        }
    } else {
        let fwd = cfg.nip05_active && e.is_metadata();
        if cfg.nip05_enabled && verif != VerificationOutcome::Valid {
            GateDecisionModel::Reject {
                notice: match verif {
                    VerificationOutcome::Invalid => spec_blocked_notice(
                        e.id,
                        "NIP-05 verification is no longer valid (expired/wrong domain)"@,
                    ),
                    VerificationOutcome::NoRows => spec_blocked_notice(
                        e.id,
                        "NIP-05 verification needed to publish events"@,
                    ),
                    _ => spec_error_notice(
                        e.id,
                        "relay experienced an error checking the author's verification status"@,
                    ),
                },
                forward_metadata: fwd,
            }
        } else {
            GateDecisionModel::Admit { forward_metadata: fwd }
        }
    }
}

/// What the outside persist call reported for one event.
#[derive(PartialEq, Eq, Structural, Debug, Clone, Copy)]
pub enum PersistOutcome {
    /// A new row was written.
    Inserted,
    /// No row changed: an event with this hash was already stored.
    DuplicateRow,
    /// The write itself failed.
    Failed,
}

/// What follows one persist outcome.
pub struct PersistDecision {
    /// The notice owed to the submitter.
    pub notice: Notice,
    /// Whether the event is published on the broadcast bus.
    pub broadcast: bool,
    /// Whether the write counts against the rate limit.
    pub counted_write: bool,
}

/// The reaction to each persist outcome: a fresh row is acknowledged,
/// broadcast and counted; a duplicate is reported and dropped; a failed
/// write is an error notice — never a dropped submission.
pub open spec fn spec_persist_decision(id: Seq<char>, outcome: PersistOutcome) -> (
    NoticeModel,
    bool,
    bool,
) {
    match outcome {
        PersistOutcome::Inserted => (spec_saved_notice(id), true, true),
        PersistOutcome::DuplicateRow => (spec_duplicate_notice(id), false, false),
        PersistOutcome::Failed => (
            spec_error_notice(
                id,
                "relay experienced an error trying to publish the latest event"@,
            ),
            false,
            false,
        ),
    }
}

/// One writer step over the store and the bus: the admission gate
/// first, then the ephemeral shortcut, then persistence with the
/// persist decision's notice, broadcast and accounting.
pub open spec fn spec_writer_step(
    rows: Seq<StoredEventModel>,
    bus: Seq<Seq<char>>,
    cfg: WriterConfigModel,
    e: EventModel,
    verif: VerificationOutcome,
) -> (Seq<StoredEventModel>, Seq<Seq<char>>, WriterStepModel) {
    match spec_ingest_gate(cfg, e, verif) {
        GateDecisionModel::Reject { notice, forward_metadata } => (
            rows,
            bus,
            WriterStepModel { notice: Some(notice), forward_metadata, counted_write: false },
        ),
        GateDecisionModel::Admit { forward_metadata } => {
            if e.is_ephemeral() {
                (
                    rows,
                    bus.push(e.id),
                    WriterStepModel { notice: None, forward_metadata, counted_write: true },
                )
            } else {
                let ingested = spec_ingest(rows, e);
                let d = spec_persist_decision(
                    e.id,
                    if ingested.1 == IngestResult::Saved {
                        PersistOutcome::Inserted
                    } else {
                        PersistOutcome::DuplicateRow
                    },
                );
                (
                    ingested.0,
                    if d.1 {
                        bus.push(e.id)
                    } else {
                        bus
                    },
                    WriterStepModel {
                        notice: Some(d.0),
                        forward_metadata,
                        counted_write: d.2,
                    },
                )
            }
        },
    }
}

fn whitelist_rejects(cfg: &WriterConfig, ev: &Event) -> (r: bool)
    ensures
        r == spec_whitelist_rejects(cfg@, ev@),
{
    match &cfg.pubkey_whitelist {
        None => false,
        Some(wl) => {
            let mut i: usize = 0;
            while i < wl.len()
                invariant
                    i <= wl.len(),
                    cfg.pubkey_whitelist == Some(*wl),
                    forall|j: int| 0 <= j < i ==> #[trigger] wl.deep_view()[j] != ev@.pubkey,
                decreases wl.len() - i,
            {
                proof {
                    assert(wl.deep_view()[i as int] == wl@[i as int]@);
                }
                if wl[i].eq(&ev.pubkey) {
                    proof {
                        assert(wl.deep_view().contains(ev@.pubkey));
                    }
                    return false;
                }
                i += 1;
            }
            proof {
                assert(!wl.deep_view().contains(ev@.pubkey));
            }
            true
        },
    }
}

/// Apply the admission gate to one submission.
pub fn ingest_gate(cfg: &WriterConfig, ev: &Event, verif: VerificationOutcome) -> (g: GateDecision)
    ensures
        g@ == spec_ingest_gate(cfg@, ev@, verif),
{
    if whitelist_rejects(cfg, ev) {
        return GateDecision::Reject {
            notice: Notice::blocked(
                ev.id.clone(),
                "pubkey is not allowed to publish to this relay",
            ),
            forward_metadata: false,
        };
    }
    let fwd = cfg.nip05_active && ev.is_kind_metadata();
    if cfg.nip05_enabled && !(matches!(verif, VerificationOutcome::Valid)) {
        let notice = match verif {
            VerificationOutcome::Invalid => Notice::blocked(
                ev.id.clone(),
                "NIP-05 verification is no longer valid (expired/wrong domain)",
            ),
            VerificationOutcome::NoRows => Notice::blocked(
                ev.id.clone(),
                "NIP-05 verification needed to publish events",
            ),
            _ => Notice::error(
                ev.id.clone(),
                "relay experienced an error checking the author's verification status",
            ),
        };
        return GateDecision::Reject { notice, forward_metadata: fwd };
    }
    GateDecision::Admit { forward_metadata: fwd }
}

/// Decide the reaction to one persist outcome.
pub fn persist_decision(id: String, outcome: PersistOutcome) -> (r: PersistDecision)
    ensures
        (r.notice@, r.broadcast, r.counted_write) == spec_persist_decision(id@, outcome),
{
    match outcome {
        PersistOutcome::Inserted => PersistDecision {
            notice: Notice::saved(id),
            broadcast: true,
            counted_write: true,
        },
        PersistOutcome::DuplicateRow => PersistDecision {
            notice: Notice::duplicate(id),
            broadcast: false,
            counted_write: false,
        },
        PersistOutcome::Failed => PersistDecision {
            notice: Notice::error(
                id,
                "relay experienced an error trying to publish the latest event",
            ),
            broadcast: false,
            counted_write: false,
        },
    }
}

/// Run one submission through the writer: the store and the bus change
/// exactly as the step function says, and the returned notice,
/// verifier forwarding, and rate-limit accounting are its outputs.
pub fn writer_step(
    store: &mut Store,
    bus: &mut Bus,
    cfg: &WriterConfig,
    ev: Event,
    verif: VerificationOutcome,
) -> (out: WriterOutput)
    requires
        old(store).wf(),
        old(bus).wf(),
    ensures
        final(store).wf(),
        final(bus).wf(),
        final(bus).capacity == old(bus).capacity,
        (final(store)@, msg_models(final(bus).log@), out@) == spec_writer_step(
            old(store)@,
            msg_models(old(bus).log@),
            cfg@,
            ev@,
            verif,
        ),
{
    let ghost em = ev@;
    match ingest_gate(cfg, &ev, verif) {
        GateDecision::Reject { notice, forward_metadata } => {
            WriterOutput { notice: Some(notice), forward_metadata, counted_write: false }
        },
        GateDecision::Admit { forward_metadata } => {
            if ev.is_ephemeral() {
                bus.publish(ev.id);
                WriterOutput { notice: None, forward_metadata, counted_write: true }
            } else {
                let id_copy = ev.id.clone();
                let res = store.ingest(ev);
                let d = persist_decision(
                    id_copy.clone(),
                    match res {
                        IngestResult::Saved => PersistOutcome::Inserted,
                        IngestResult::Duplicate => PersistOutcome::DuplicateRow,
                    },
                );
                if d.broadcast {
                    bus.publish(id_copy);
                }
                WriterOutput {
                    notice: Some(d.notice),
                    forward_metadata,
                    counted_write: d.counted_write,
                }
            }
        },
    }
}

/// How many persisted writes trigger a maintenance pass.
pub const EVENT_COUNT_OPTIMIZE_TRIGGER: u64 = 500;

/// Advance the maintenance counter after a persisted write: once more
/// writes than the trigger have accumulated, the counter resets and a
/// maintenance pass is due.
pub fn optimize_tick(counter: u64) -> (r: (u64, bool))
    requires
        counter <= EVENT_COUNT_OPTIMIZE_TRIGGER,
    ensures
        r.1 == (counter + 1 > EVENT_COUNT_OPTIMIZE_TRIGGER),
        r.1 ==> r.0 == 0,
        !r.1 ==> r.0 == counter + 1,
{
    let next = counter + 1;
    if next > EVENT_COUNT_OPTIMIZE_TRIGGER {
        (0, true)
    } else {
        (next, false)
    }
}

/// What to do when the rate limiter denies a counted write: sleep for
/// the advised wait, and log the event only when the last such log is
/// more than the suppression window ago.
pub struct RateAction {
    /// How long to sleep, in milliseconds.
    pub sleep_millis: u64,
    /// Whether to log the rate limiting.
    pub log: bool,
    /// The new time of the most recent rate-limit log, in milliseconds.
    pub new_last_log_millis: u64,
}

/// How long rate-limit log messages are suppressed after one is
/// written, in milliseconds.
pub const RATE_LIMIT_LOG_SUPPRESSION_MILLIS: u64 = 10000;

/// Decide the writer's reaction to a rate-limit denial: always sleep
/// for the advised wait; log only once per suppression window.
pub fn rate_limit_action(wait_millis: u64, now_millis: u64, last_log_millis: u64) -> (r: RateAction)
    requires
        last_log_millis <= now_millis,
    ensures
        r.sleep_millis == wait_millis,
        r.log == (now_millis - last_log_millis > RATE_LIMIT_LOG_SUPPRESSION_MILLIS),
        r.log ==> r.new_last_log_millis == now_millis,
        !r.log ==> r.new_last_log_millis == last_log_millis,
{
    if now_millis - last_log_millis > RATE_LIMIT_LOG_SUPPRESSION_MILLIS {
        RateAction { sleep_millis: wait_millis, log: true, new_last_log_millis: now_millis }
    } else {
        RateAction { sleep_millis: wait_millis, log: false, new_last_log_millis: last_log_millis }
    }
}

} // verus!

verus! {

/// One submission: the event and what the verification lookup said.
pub struct SubmissionModel {
    pub event: EventModel,
    pub verif: VerificationOutcome,
}

/// The writer applied to a whole submission sequence: the final store,
/// the final bus log, and each step's output.
pub open spec fn spec_writer_run(
    rows: Seq<StoredEventModel>,
    bus: Seq<Seq<char>>,
    cfg: WriterConfigModel,
    subs: Seq<SubmissionModel>,
) -> (Seq<StoredEventModel>, Seq<Seq<char>>, Seq<WriterStepModel>)
    decreases subs.len(),
{
    if subs.len() == 0 {
        (rows, bus, Seq::empty())
    } else {
        let prev = spec_writer_run(rows, bus, cfg, subs.drop_last());
        let st = spec_writer_step(prev.0, prev.1, cfg, subs.last().event, subs.last().verif);
        (st.0, st.1, prev.2.push(st.2))
    }
}

/// How many outputs acknowledge a save of this event id.
pub open spec fn spec_count_saved(outs: Seq<WriterStepModel>, id: Seq<char>) -> int
    decreases outs.len(),
{
    if outs.len() == 0 {
        0
    } else {
        spec_count_saved(outs.drop_last(), id) + (if outs.last().notice == Some(
            spec_saved_notice(id),
        ) {
            1int
        } else {
            0
        })
    }
}

/// How many bus messages carry this id.
pub open spec fn spec_count_msg(bus: Seq<Seq<char>>, id: Seq<char>) -> int
    decreases bus.len(),
{
    if bus.len() == 0 {
        0
    } else {
        spec_count_msg(bus.drop_last(), id) + (if bus.last() == id {
            1int
        } else {
            0
        })
    }
}

proof fn lemma_has_id_stable(rows: Seq<StoredEventModel>, e: EventModel, id: Seq<char>)
    requires
        e.id != id,
    ensures
        spec_has_id(spec_ingest(rows, e).0, id) == spec_has_id(rows, id),
{
    let after = spec_ingest(rows, e).0;
    if spec_has_id(rows, id) {
        crate::store::lemma_has_id_monotone(rows, e, id);
    }
    if spec_has_id(after, id) {
        let i = choose|i: int| 0 <= i < after.len() && #[trigger] after[i].event.id == id;
        if !spec_has_id(rows, e.id) {
            if e.is_replaceable() {
                if crate::store::spec_newer_in_slot(rows, e) {
                    if i < rows.len() {
                        assert(rows[i].event.id == id);
                    }
                } else {
                    if i < rows.len() {
                        assert(crate::store::spec_hide_older(rows, e)[i].event == rows[i].event);
                        assert(rows[i].event.id == id);
                    }
                }
            } else {
                if i < rows.len() {
                    assert(rows[i].event.id == id);
                }
            }
        }
    }
}

/// What one step can do with respect to one id, read off the step
/// function: a saved acknowledgement for the id happens exactly when a
/// submission of that id reaches the store and the id is fresh; it
/// stores the id and publishes it once. No other step publishes the id
/// unless the submitted event itself carries it.
proof fn lemma_step_facts(
    rows: Seq<StoredEventModel>,
    bus: Seq<Seq<char>>,
    cfg: WriterConfigModel,
    e: EventModel,
    verif: VerificationOutcome,
    id: Seq<char>,
)
    requires
        e.id == id ==> !e.is_ephemeral(),
    ensures
        ({
            let st = spec_writer_step(rows, bus, cfg, e, verif);
            &&& spec_has_id(rows, id) ==> spec_has_id(st.0, id)
            &&& (st.2.notice == Some(spec_saved_notice(id)) <==> (e.id == id && !spec_has_id(
                rows,
                id,
            ) && !spec_whitelist_rejects(cfg, e) && !(cfg.nip05_enabled && verif
                != VerificationOutcome::Valid)))
            &&& spec_count_msg(st.1, id) == spec_count_msg(bus, id) + (if st.2.notice == Some(
                spec_saved_notice(id),
            ) {
                1int
            } else {
                0
            })
            &&& (st.2.notice == Some(spec_saved_notice(id)) ==> spec_has_id(st.0, id))
            &&& (e.id != id ==> spec_has_id(st.0, id) == spec_has_id(rows, id))
            &&& (e.id == id && spec_has_id(rows, id) ==> spec_has_id(st.0, id))
        }),
{
    let st = spec_writer_step(rows, bus, cfg, e, verif);
    if !spec_whitelist_rejects(cfg, e) && !(cfg.nip05_enabled && verif
        != VerificationOutcome::Valid) && !e.is_ephemeral() {
        let ing = spec_ingest(rows, e);
        if spec_has_id(rows, id) {
            crate::store::lemma_has_id_monotone(rows, e, id);
        }
        if e.id != id {
            lemma_has_id_stable(rows, e, id);
        }
        if e.id == id && !spec_has_id(rows, id) {
            assert(ing.1 == IngestResult::Saved);
            assert(ing.0.last().event.id == id);
            assert(spec_has_id(ing.0, id));
        }
        if e.id == id && spec_has_id(rows, id) {
            assert(ing.1 == IngestResult::Duplicate);
        }
        if st.1 != bus {
            assert(st.1 == bus.push(e.id));
            assert(st.1.drop_last() =~= bus);
        }
        if e.id != id && ing.1 == IngestResult::Saved {
            assert(st.1 == bus.push(e.id));
            assert(st.1.drop_last() =~= bus);
            assert(st.1.last() != id);
        }
    } else {
        if e.is_ephemeral() && !spec_whitelist_rejects(cfg, e) && !(cfg.nip05_enabled && verif
            != VerificationOutcome::Valid) {
            assert(e.id != id);
            assert(st.1 == bus.push(e.id));
            assert(st.1.drop_last() =~= bus);
        }
        if spec_has_id(rows, id) {
            assert(st.0 == rows);
        }
    }
}

/// Law: duplicate submissions are harmless. Over any run of
/// submissions in which the events carrying an id are not ephemeral,
/// the writer acknowledges a save of that id at most once — never, if
/// the store already held it — publishes the id on the bus exactly as
/// often as it acknowledges the save, and, once saved, keeps the id
/// stored to the end.
pub proof fn lemma_duplicate_submissions(
    rows: Seq<StoredEventModel>,
    bus: Seq<Seq<char>>,
    cfg: WriterConfigModel,
    subs: Seq<SubmissionModel>,
    id: Seq<char>,
)
    requires
        forall|i: int|
            0 <= i < subs.len() && (#[trigger] subs[i].event).id == id ==> !subs[i].event.is_ephemeral(),
    ensures
        ({
            let r = spec_writer_run(rows, bus, cfg, subs);
            &&& spec_count_saved(r.2, id) == (if spec_has_id(r.0, id) && !spec_has_id(
                rows,
                id,
            ) {
                1int
            } else {
                0
            })
            &&& spec_count_msg(r.1, id) == spec_count_msg(bus, id) + spec_count_saved(r.2, id)
            &&& (spec_has_id(rows, id) ==> spec_has_id(r.0, id))
        }),
    decreases subs.len(),
{
    if subs.len() == 0 {
        let r = spec_writer_run(rows, bus, cfg, subs);
        assert(r.2.len() == 0);
    } else {
        lemma_duplicate_submissions(rows, bus, cfg, subs.drop_last(), id);
        let prev = spec_writer_run(rows, bus, cfg, subs.drop_last());
        let last = subs.last();
        assert(last == subs[subs.len() - 1]);
        lemma_step_facts(prev.0, prev.1, cfg, last.event, last.verif, id);
        let r = spec_writer_run(rows, bus, cfg, subs);
        let st = spec_writer_step(prev.0, prev.1, cfg, last.event, last.verif);
        assert(r.2.drop_last() =~= prev.2);
        assert(r.2.last() == st.2);
        if st.2.notice == Some(spec_saved_notice(id)) {
            assert(!spec_has_id(prev.0, id));
            assert(spec_count_saved(prev.2, id) == 0);
        }
    }
}

} // verus!
