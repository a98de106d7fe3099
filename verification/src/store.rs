//! The event store's observable behaviour: append with duplicate
//! rejection, the replaceable-kind policy that hides superseded
//! records, and historical replay with the compiler's ordering rules.
use vstd::prelude::*;

use crate::event::{Event, EventModel};
use crate::subscription::{spec_filter_matches, ReqFilter, ReqFilterModel};

verus! {

/// One stored record: the event and whether it is hidden from queries.
pub struct StoredEventModel {
    pub event: EventModel,
    pub hidden: bool,
}

/// A row of a historical replay: the serialized payload and timestamp.
pub struct EventRow {
    pub content: String,
    pub created_at: i64,
}

/// Mathematical image of an `EventRow`.
pub struct EventRowModel {
    pub content: Seq<char>,
    pub created_at: int,
}

impl View for EventRow {
    type V = EventRowModel;

    open spec fn view(&self) -> EventRowModel {
        EventRowModel { content: self.content@, created_at: self.created_at as int }
    }
}

impl Clone for EventRow {
    fn clone(&self) -> (r: Self)
        ensures
            r@ == self@,
    {
        EventRow { content: self.content.clone(), created_at: self.created_at }
    }
}

/// The models of a list of replay rows.
pub open spec fn row_models(rs: Seq<EventRow>) -> Seq<EventRowModel> {
    rs.map_values(|r: EventRow| r@)
}

/// The outcome of persisting one event.
#[derive(PartialEq, Eq, Structural, Debug, Clone, Copy)]
pub enum IngestResult {
    /// The event was stored.
    Saved,
    /// An event with the same id was already stored; nothing changed.
    Duplicate,
}

/// The event store: events in arrival order, with a hidden flag each.
pub struct Store {
    pub events: Vec<Event>,
    pub hidden: Vec<bool>,
}

impl View for Store {
    type V = Seq<StoredEventModel>;

    open spec fn view(&self) -> Seq<StoredEventModel> {
        Seq::new(
            self.events@.len(),
            |i: int| StoredEventModel { event: self.events@[i]@, hidden: self.hidden@[i] },
        )
    }
}

/// Some stored event carries this id.
pub open spec fn spec_has_id(rows: Seq<StoredEventModel>, id: Seq<char>) -> bool {
    exists|i: int| 0 <= i < rows.len() && #[trigger] rows[i].event.id == id
}

/// Whether the stored event belongs to the same replaceable slot as `e`.
pub open spec fn spec_same_slot(r: StoredEventModel, e: EventModel) -> bool {
    r.event.kind == e.kind && r.event.pubkey == e.pubkey
}

/// A visible, strictly newer event occupies the replaceable slot of `e`.
pub open spec fn spec_newer_in_slot(rows: Seq<StoredEventModel>, e: EventModel) -> bool {
    exists|i: int|
        0 <= i < rows.len() && spec_same_slot(#[trigger] rows[i], e) && !rows[i].hidden
            && rows[i].event.created_at > e.created_at
}

/// Stored rows with every slot-mate of `e` no newer than `e` hidden.
pub open spec fn spec_hide_older(rows: Seq<StoredEventModel>, e: EventModel) -> Seq<
    StoredEventModel,
> {
    Seq::new(
        rows.len(),
        |i: int|
            if spec_same_slot(rows[i], e) && rows[i].event.created_at <= e.created_at {
                StoredEventModel { event: rows[i].event, hidden: true }
            } else {
                rows[i]
            },
    )
}

/// What persisting one event does: a duplicate id changes nothing; a
/// replaceable event either arrives hidden (a newer slot-mate is
/// visible) or hides its older slot-mates; anything else is appended
/// visible.
pub open spec fn spec_ingest(rows: Seq<StoredEventModel>, e: EventModel) -> (Seq<
    StoredEventModel,
>, IngestResult) {
    if spec_has_id(rows, e.id) {
        (rows, IngestResult::Duplicate)
    } else if e.is_replaceable() {
        if spec_newer_in_slot(rows, e) {
            (rows.push(StoredEventModel { event: e, hidden: true }), IngestResult::Saved)
        } else {
            (
                spec_hide_older(rows, e).push(StoredEventModel { event: e, hidden: false }),
                IngestResult::Saved,
            )
        }
    } else {
        (rows.push(StoredEventModel { event: e, hidden: false }), IngestResult::Saved)
    }
}

impl Store {
    /// Lengths of the two columns agree.
    pub open spec fn wf(&self) -> bool {
        self.events@.len() == self.hidden@.len()
    }

    /// An empty store.
    pub fn new() -> (r: Store)
        ensures
            r.wf(),
            r@ == Seq::<StoredEventModel>::empty(),
    {
        let r = Store { events: Vec::new(), hidden: Vec::new() };
        proof {
            assert(r@ =~= Seq::<StoredEventModel>::empty());
        }
        r
    }

    /// How many records are stored, hidden ones included.
    pub fn len(&self) -> (r: usize)
        requires
            self.wf(),
        ensures
            r == self@.len(),
    {
        self.events.len()
    }

    /// Persist one event, enforcing duplicate rejection and the
    /// replaceable policy.
    pub fn ingest(&mut self, ev: Event) -> (r: IngestResult)
        requires
            old(self).wf(),
        ensures
            final(self).wf(),
            (final(self)@, r) == spec_ingest(old(self)@, ev@),
    {
        let ghost rows0 = self@;
        let ghost em = ev@;
        // duplicate detection on the unique id
        let mut i: usize = 0;
        while i < self.events.len()
            invariant
                self.wf(),
                i <= self.events.len(),
                self@ == rows0,
                em == ev@,
                forall|j: int| 0 <= j < i ==> #[trigger] rows0[j].event.id != em.id,
            decreases self.events.len() - i,
        {
            proof {
                assert(rows0[i as int].event.id == self.events@[i as int]@.id);
            }
            if self.events[i].id.eq(&ev.id) {
                proof {
                    assert(spec_has_id(rows0, em.id));
                }
                return IngestResult::Duplicate;
            }
            i += 1;
        }
        proof {
            assert(!spec_has_id(rows0, em.id));
        }
        if ev.is_replaceable() {
            // does a visible, strictly newer slot-mate exist?
            let mut newer = false;
            let mut k: usize = 0;
            while k < self.events.len()
                invariant
                    self.wf(),
                    k <= self.events.len(),
                    self@ == rows0,
                    em == ev@,
                    newer == exists|j: int|
                        0 <= j < k && spec_same_slot(#[trigger] rows0[j], em) && !rows0[j].hidden
                            && rows0[j].event.created_at > em.created_at,
                decreases self.events.len() - k,
            {
                proof {
                    assert(rows0[k as int].event == self.events@[k as int]@);
                    assert(rows0[k as int].hidden == self.hidden@[k as int]);
                }
                if !newer && self.events[k].kind == ev.kind && self.events[k].pubkey.eq(&ev.pubkey)
                    && !self.hidden[k] && self.events[k].created_at > ev.created_at {
                    newer = true;
                    proof {
                        assert(spec_same_slot(rows0[k as int], em) && !rows0[k as int].hidden
                            && rows0[k as int].event.created_at > em.created_at);
                    }
                }
                k += 1;
            }
            if newer {
                proof {
                    assert(spec_newer_in_slot(rows0, em));
                }
                self.events.push(ev);
                self.hidden.push(true);
                proof {
                    assert(self@ =~= rows0.push(StoredEventModel { event: em, hidden: true }));
                }
                return IngestResult::Saved;
            }
            proof {
                assert(!spec_newer_in_slot(rows0, em));
            }
            // hide the older slot-mates
            let mut h: usize = 0;
            while h < self.events.len()
                invariant
                    self.wf(),
                    h <= self.events.len(),
                    self.events@.len() == rows0.len(),
                    em == ev@,
                    forall|j: int| 0 <= j < rows0.len() ==> #[trigger] self.events@[j]@ == rows0[j].event,
                    forall|j: int|
                        h <= j < rows0.len() ==> #[trigger] self.hidden@[j] == rows0[j].hidden,
                    forall|j: int|
                        0 <= j < h ==> #[trigger] self.hidden@[j] == spec_hide_older(rows0, em)[j].hidden,
                decreases self.events.len() - h,
            {
                proof {
                    assert(self.events@[h as int]@ == rows0[h as int].event);
                }
                if self.events[h].kind == ev.kind && self.events[h].pubkey.eq(&ev.pubkey)
                    && self.events[h].created_at <= ev.created_at {
                    self.hidden.set(h, true);
                } else {
                    let cur = self.hidden[h];
                    self.hidden.set(h, cur);
                }
                h += 1;
            }
            self.events.push(ev);
            self.hidden.push(false);
            proof {
                assert(self@ =~= spec_hide_older(rows0, em).push(
                    StoredEventModel { event: em, hidden: false },
                ));
            }
            IngestResult::Saved
        } else {
            self.events.push(ev);
            self.hidden.push(false);
            proof {
                assert(self@ =~= rows0.push(StoredEventModel { event: em, hidden: false }));
            }
            IngestResult::Saved
        }
    }
}

} // verus!

verus! {

broadcast use vstd::seq_lib::group_to_multiset_ensures;

/// The replay row of one stored record.
pub open spec fn spec_row_of(r: StoredEventModel) -> EventRowModel {
    EventRowModel { content: r.event.content, created_at: r.event.created_at }
}

/// The rows of the visible records satisfying the filter, in store
/// order.
pub open spec fn spec_matching_rows(rows: Seq<StoredEventModel>, f: ReqFilterModel) -> Seq<
    EventRowModel,
>
    decreases rows.len(),
{
    if rows.len() == 0 {
        Seq::empty()
    } else {
        let rest = spec_matching_rows(rows.drop_last(), f);
        let r = rows.last();
        if !r.hidden && spec_filter_matches(f, r.event) {
            rest.push(spec_row_of(r))
        } else {
            rest
        }
    }
}

/// Rows in oldest-first order.
pub open spec fn rows_sorted_asc(rs: Seq<EventRowModel>) -> bool {
    forall|i: int, j: int| 0 <= i < j < rs.len() ==> rs[i].created_at <= rs[j].created_at
}

/// Rows in newest-first order.
pub open spec fn rows_sorted_desc(rs: Seq<EventRowModel>) -> bool {
    forall|i: int, j: int| 0 <= i < j < rs.len() ==> rs[i].created_at >= rs[j].created_at
}

proof fn lemma_rm_push(s: Seq<EventRow>, x: EventRow)
    ensures
        row_models(s.push(x)) == row_models(s).push(x@),
{
    assert(row_models(s.push(x)) =~= row_models(s).push(x@));
}

proof fn lemma_rm_remove(s: Seq<EventRow>, i: int)
    requires
        0 <= i < s.len(),
    ensures
        row_models(s.remove(i)) == row_models(s).remove(i),
{
    assert(row_models(s.remove(i)) =~= row_models(s).remove(i));
}

fn sort_rows(src: Vec<EventRow>, desc: bool) -> (out: Vec<EventRow>)
    ensures
        row_models(out@).to_multiset() == row_models(src@).to_multiset(),
        out@.len() == src@.len(),
        !desc ==> rows_sorted_asc(row_models(out@)),
        desc ==> rows_sorted_desc(row_models(out@)),
{
    let ghost orig = row_models(src@);
    let mut rest = src;
    let mut out: Vec<EventRow> = Vec::new();
    proof {
        assert(row_models(out@) =~= Seq::<EventRowModel>::empty());
        assert(row_models(out@).to_multiset().add(row_models(rest@).to_multiset())
            =~= orig.to_multiset());
    }
    while rest.len() > 0
        invariant
            row_models(out@).to_multiset().add(row_models(rest@).to_multiset())
                == orig.to_multiset(),
            out@.len() + rest@.len() == orig.len(),
            !desc ==> rows_sorted_asc(row_models(out@)),
            desc ==> rows_sorted_desc(row_models(out@)),
            forall|i: int, j: int|
                0 <= i < out@.len() && 0 <= j < rest@.len() ==> (if desc {
                    row_models(out@)[i].created_at >= row_models(rest@)[j].created_at
                } else {
                    row_models(out@)[i].created_at <= row_models(rest@)[j].created_at
                }),
        decreases rest.len(),
    {
        let mut m: usize = 0;
        let mut t: usize = 1;
        while t < rest.len()
            invariant
                m < t <= rest@.len(),
                rest@.len() > 0,
                forall|j: int|
                    0 <= j < t ==> (if desc {
                        row_models(rest@)[m as int].created_at >= row_models(rest@)[j].created_at
                    } else {
                        row_models(rest@)[m as int].created_at <= row_models(rest@)[j].created_at
                    }),
            decreases rest.len() - t,
        {
            proof {
                assert(row_models(rest@)[t as int] == rest@[t as int]@);
                assert(row_models(rest@)[m as int] == rest@[m as int]@);
            }
            let better = if desc {
                rest[t].created_at > rest[m].created_at
            } else {
                rest[t].created_at < rest[m].created_at
            };
            if better {
                m = t;
            }
            t += 1;
        }
        let ghost rest_pre = rest@;
        let ghost out_pre = out@;
        let x = rest.remove(m);
        let ghost xm = x@;
        out.push(x);
        proof {
            lemma_rm_remove(rest_pre, m as int);
            lemma_rm_push(out_pre, out@.last());
            assert(out@ == out_pre.push(out@.last()));
            let rm_pre = row_models(rest_pre);
            assert(rm_pre[m as int] == xm);
            assert(rm_pre.contains(xm));
            assert(row_models(out@).to_multiset().add(row_models(rest@).to_multiset())
                =~= orig.to_multiset());
            assert forall|i: int, j: int|
                0 <= i < out@.len() && 0 <= j < rest@.len() implies (if desc {
                row_models(out@)[i].created_at >= row_models(rest@)[j].created_at
            } else {
                row_models(out@)[i].created_at <= row_models(rest@)[j].created_at
            }) by {
                assert(row_models(rest@)[j] == rm_pre.remove(m as int)[j]);
                if j < m {
                    assert(rm_pre.remove(m as int)[j] == rm_pre[j]);
                } else {
                    assert(rm_pre.remove(m as int)[j] == rm_pre[j + 1]);
                }
            }
        }
    }
    proof {
        assert(row_models(rest@) =~= Seq::<EventRowModel>::empty());
        assert(row_models(out@).to_multiset() =~= orig.to_multiset());
    }
    out
}

impl Store {
    /// Historical replay of one filter: the rows of visible matching
    /// events, oldest-first, or newest-first truncated when the filter
    /// carries a limit.
    pub fn replay(&self, f: &ReqFilter) -> (r: Vec<EventRow>)
        requires
            self.wf(),
        ensures
            ({
                let matching = spec_matching_rows(self@, f@);
                match f@.limit {
                    None => row_models(r@).to_multiset() == matching.to_multiset()
                        && rows_sorted_asc(row_models(r@)),
                    Some(l) => exists|full: Seq<EventRowModel>|
                        #![auto]
                        full.to_multiset() == matching.to_multiset() && rows_sorted_desc(full)
                            && row_models(r@) == full.take(
                            if l <= full.len() {
                                l
                            } else {
                                full.len() as int
                            },
                        ),
                }
            }),
    {
        let ghost rows_m = self@;
        let mut collected: Vec<EventRow> = Vec::new();
        let mut i: usize = 0;
        proof {
            assert(row_models(collected@) =~= spec_matching_rows(rows_m.take(0), f@));
        }
        while i < self.events.len()
            invariant
                self.wf(),
                i <= self.events.len(),
                rows_m == self@,
                rows_m.len() == self.events.len(),
                row_models(collected@) == spec_matching_rows(rows_m.take(i as int), f@),
            decreases self.events.len() - i,
        {
            proof {
                assert(rows_m[i as int].event == self.events@[i as int]@);
                assert(rows_m[i as int].hidden == self.hidden@[i as int]);
                assert(rows_m.take(i as int + 1).drop_last() =~= rows_m.take(i as int));
                assert(rows_m.take(i as int + 1).last() == rows_m[i as int]);
            }
            if !self.hidden[i] && self.filter_matches_at(f, i) {
                let ghost pre = collected@;
                let row = EventRow {
                    content: self.events[i].content.clone(),
                    created_at: self.events[i].created_at,
                };
                collected.push(row);
                proof {
                    lemma_rm_push(pre, collected@.last());
                    assert(collected@ == pre.push(collected@.last()));
                    assert(row_models(collected@) =~= spec_matching_rows(
                        rows_m.take(i as int + 1),
                        f@,
                    ));
                }
            }
            i += 1;
        }
        proof {
            assert(rows_m.take(rows_m.len() as int) =~= rows_m);
        }
        let ghost matching = spec_matching_rows(self@, f@);
        proof {
            assert(row_models(collected@) == matching);
        }
        match f.limit {
            None => {
                let sorted = sort_rows(collected, false);
                proof {
                    assert(row_models(sorted@).to_multiset() == matching.to_multiset());
                }
                sorted
            },
            Some(l) => {
                let mut sorted = sort_rows(collected, true);
                let ghost full = row_models(sorted@);
                let keep: usize = if l <= sorted.len() as u64 {
                    l as usize
                } else {
                    sorted.len()
                };
                sorted.truncate(keep);
                proof {
                    assert(row_models(sorted@) =~= full.take(keep as int));
                    assert(full.to_multiset() == matching.to_multiset());
                    assert(rows_sorted_desc(full));
                    assert(keep as int == (if l as int <= full.len() {
                        l as int
                    } else {
                        full.len() as int
                    }));
                }
                sorted
            },
        }
    }

    fn filter_matches_at(&self, f: &ReqFilter, i: usize) -> (r: bool)
        requires
            self.wf(),
            i < self.events@.len(),
        ensures
            r == spec_filter_matches(f@, self@[i as int].event),
    {
        f.matches(&self.events[i])
    }
}

/// Law: the historical replay of one filter contains a row exactly when
/// some stored record is visible, satisfies the filter, and yields that
/// row.
pub proof fn lemma_replay_membership(
    rows: Seq<StoredEventModel>,
    f: ReqFilterModel,
    x: EventRowModel,
)
    ensures
        spec_matching_rows(rows, f).contains(x) <==> exists|i: int|
            0 <= i < rows.len() && !(#[trigger] rows[i]).hidden && spec_filter_matches(
                f,
                rows[i].event,
            ) && spec_row_of(rows[i]) == x,
    decreases rows.len(),
{
    if rows.len() == 0 {
    } else {
        lemma_replay_membership(rows.drop_last(), f, x);
        let rest = spec_matching_rows(rows.drop_last(), f);
        let r = rows.last();
        if !r.hidden && spec_filter_matches(f, r.event) {
            assert(spec_matching_rows(rows, f) == rest.push(spec_row_of(r)));
            if spec_matching_rows(rows, f).contains(x) {
                let k = choose|k: int|
                    0 <= k < rest.push(spec_row_of(r)).len() && rest.push(spec_row_of(r))[k] == x;
                if k < rest.len() {
                    assert(rest.contains(x));
                    let i = choose|i: int|
                        0 <= i < rows.drop_last().len() && !(#[trigger] rows.drop_last()[i]).hidden
                            && spec_filter_matches(f, rows.drop_last()[i].event) && spec_row_of(
                            rows.drop_last()[i],
                        ) == x;
                    assert(rows[i] == rows.drop_last()[i]);
                } else {
                    assert(rows[rows.len() - 1] == r && spec_row_of(r) == x);
                }
            }
            if exists|i: int|
                0 <= i < rows.len() && !(#[trigger] rows[i]).hidden && spec_filter_matches(
                    f,
                    rows[i].event,
                ) && spec_row_of(rows[i]) == x {
                let i = choose|i: int|
                    0 <= i < rows.len() && !(#[trigger] rows[i]).hidden && spec_filter_matches(
                        f,
                        rows[i].event,
                    ) && spec_row_of(rows[i]) == x;
                if i < rows.len() - 1 {
                    assert(rows.drop_last()[i] == rows[i]);
                    assert(rest.contains(x));
                    assert(rest.push(spec_row_of(r))[choose|k: int|
                        0 <= k < rest.len() && rest[k] == x] == x);
                } else {
                    assert(rest.push(spec_row_of(r)).last() == x);
                }
            }
        } else {
            assert(spec_matching_rows(rows, f) == rest);
            if exists|i: int|
                0 <= i < rows.len() && !(#[trigger] rows[i]).hidden && spec_filter_matches(
                    f,
                    rows[i].event,
                ) && spec_row_of(rows[i]) == x {
                let i = choose|i: int|
                    0 <= i < rows.len() && !(#[trigger] rows[i]).hidden && spec_filter_matches(
                        f,
                        rows[i].event,
                    ) && spec_row_of(rows[i]) == x;
                assert(i < rows.len() - 1);
                assert(rows.drop_last()[i] == rows[i]);
            }
            if rest.contains(x) {
                let i = choose|i: int|
                    0 <= i < rows.drop_last().len() && !(#[trigger] rows.drop_last()[i]).hidden
                        && spec_filter_matches(f, rows.drop_last()[i].event) && spec_row_of(
                        rows.drop_last()[i],
                    ) == x;
                assert(rows[i] == rows.drop_last()[i]);
            }
        }
    }
}

/// Law: ingest is idempotent. Once an event has been submitted, a
/// second submission of the same event is reported a duplicate and
/// leaves the store unchanged.
pub proof fn lemma_ingest_idempotent(rows: Seq<StoredEventModel>, e: EventModel)
    ensures
        spec_ingest(spec_ingest(rows, e).0, e) == (spec_ingest(rows, e).0, IngestResult::Duplicate),
{
    let once = spec_ingest(rows, e).0;
    if spec_has_id(rows, e.id) {
        assert(once == rows);
    } else {
        assert(once.last().event.id == e.id);
        assert(spec_has_id(once, e.id));
    }
    assert(spec_has_id(once, e.id)) by {
        if !spec_has_id(rows, e.id) {
            assert(once[once.len() - 1].event.id == e.id);
        } else {
            let i = choose|i: int| 0 <= i < rows.len() && #[trigger] rows[i].event.id == e.id;
            assert(once == rows);
        }
    }
}

/// Law: whatever is ingested later, a stored id stays stored.
pub proof fn lemma_has_id_monotone(rows: Seq<StoredEventModel>, e2: EventModel, id: Seq<char>)
    requires
        spec_has_id(rows, id),
    ensures
        spec_has_id(spec_ingest(rows, e2).0, id),
{
    let i = choose|i: int| 0 <= i < rows.len() && #[trigger] rows[i].event.id == id;
    let after = spec_ingest(rows, e2).0;
    if spec_has_id(rows, e2.id) {
        assert(after[i].event.id == id);
    } else if e2.is_replaceable() {
        if spec_newer_in_slot(rows, e2) {
            assert(after[i].event.id == id);
        } else {
            assert(spec_hide_older(rows, e2)[i].event == rows[i].event);
            assert(after[i].event.id == id);
        }
    } else {
        assert(after[i].event.id == id);
    }
}

} // verus!

verus! {

/// No two stored records carry the same event id.
pub open spec fn spec_unique_ids(rows: Seq<StoredEventModel>) -> bool {
    forall|i: int, j: int|
        0 <= i < j < rows.len() ==> (#[trigger] rows[i]).event.id != (#[trigger] rows[j]).event.id
}

/// Law: persisting keeps event ids unique — duplicates are dropped, and
/// hiding a record never changes its identity.
pub proof fn lemma_ingest_unique_ids(rows: Seq<StoredEventModel>, e: EventModel)
    requires
        spec_unique_ids(rows),
    ensures
        spec_unique_ids(spec_ingest(rows, e).0),
{
    let after = spec_ingest(rows, e).0;
    if !spec_has_id(rows, e.id) {
        if e.is_replaceable() && !spec_newer_in_slot(rows, e) {
            let hidden = spec_hide_older(rows, e);
            assert forall|i: int, j: int|
                0 <= i < j < after.len() implies (#[trigger] after[i]).event.id != (
            #[trigger] after[j]).event.id by {
                if j < after.len() - 1 {
                    assert(after[i].event == rows[i].event);
                    assert(after[j].event == rows[j].event);
                } else {
                    assert(after[i].event == rows[i].event);
                    assert(rows[i].event.id != e.id);
                }
            }
        } else {
            assert forall|i: int, j: int|
                0 <= i < j < after.len() implies (#[trigger] after[i]).event.id != (
            #[trigger] after[j]).event.id by {
                if j == after.len() - 1 {
                    assert(after[i] == rows[i]);
                    assert(rows[i].event.id != e.id);
                }
            }
        }
    }
}

/// At most one visible record occupies any replaceable (author, kind)
/// slot.
pub open spec fn spec_slot_coherent(rows: Seq<StoredEventModel>) -> bool {
    forall|i: int, j: int|
        0 <= i < rows.len() && 0 <= j < rows.len() && i != j && (
        #[trigger] rows[i]).event.is_replaceable() && !rows[i].hidden && !(
        #[trigger] rows[j]).hidden ==> !spec_same_slot(rows[j], rows[i].event)
}

/// Law: persisting keeps each replaceable slot to one visible record:
/// an arriving event is hidden when a newer slot-mate is visible, and
/// otherwise hides every older one.
pub proof fn lemma_ingest_slot_coherent(rows: Seq<StoredEventModel>, e: EventModel)
    requires
        spec_slot_coherent(rows),
    ensures
        spec_slot_coherent(spec_ingest(rows, e).0),
{
    let after = spec_ingest(rows, e).0;
    if spec_has_id(rows, e.id) {
    } else if e.is_replaceable() {
        if spec_newer_in_slot(rows, e) {
            assert forall|i: int, j: int|
                0 <= i < after.len() && 0 <= j < after.len() && i != j && (
            #[trigger] after[i]).event.is_replaceable() && !after[i].hidden && !(
            #[trigger] after[j]).hidden implies !spec_same_slot(after[j], after[i].event) by {
                assert(after[after.len() - 1].hidden);
                assert(i < rows.len() && j < rows.len());
                assert(after[i] == rows[i] && after[j] == rows[j]);
            }
        } else {
            let hidden = spec_hide_older(rows, e);
            assert forall|i: int, j: int|
                0 <= i < after.len() && 0 <= j < after.len() && i != j && (
            #[trigger] after[i]).event.is_replaceable() && !after[i].hidden && !(
            #[trigger] after[j]).hidden implies !spec_same_slot(after[j], after[i].event) by {
                if i < rows.len() && j < rows.len() {
                    // both pre-existing: they were visible before, too
                    assert(after[i].event == rows[i].event && after[j].event == rows[j].event);
                    assert(!rows[i].hidden && !rows[j].hidden);
                } else if i == rows.len() && j < rows.len() {
                    // the new record against a survivor: a visible
                    // slot-mate would have had to be strictly newer
                    assert(after[i].event == e);
                    assert(after[j].event == rows[j].event);
                    if spec_same_slot(after[j], e) {
                        assert(rows[j].event.created_at > e.created_at);
                        assert(spec_newer_in_slot(rows, e));
                    }
                } else if j == rows.len() && i < rows.len() {
                    // a survivor against the new record: same slot means
                    // the survivor would have been hidden
                    assert(after[i].event == rows[i].event);
                    if spec_same_slot(after[j], after[i].event) {
                        assert(spec_same_slot(rows[i], e) && rows[i].event.created_at
                            <= e.created_at || rows[i].event.created_at > e.created_at);
                        if rows[i].event.created_at <= e.created_at {
                            assert(hidden[i].hidden);
                        } else {
                            assert(spec_newer_in_slot(rows, e));
                        }
                    }
                }
            }
        }
    } else {
        assert forall|i: int, j: int|
            0 <= i < after.len() && 0 <= j < after.len() && i != j && (
        #[trigger] after[i]).event.is_replaceable() && !after[i].hidden && !(
        #[trigger] after[j]).hidden implies !spec_same_slot(after[j], after[i].event) by {
            if i == rows.len() {
                assert(!e.is_replaceable());
            } else if j == rows.len() {
                assert(after[i] == rows[i]);
                if spec_same_slot(after[j], after[i].event) {
                    assert(e.kind == rows[i].event.kind);
                    assert(!rows[i].event.is_replaceable());
                }
            } else {
                assert(after[i] == rows[i] && after[j] == rows[j]);
            }
        }
    }
}

} // verus!
