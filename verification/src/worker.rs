//! The historical-query worker's observable behaviour: it streams the
//! query's rows in order, polls its cancellation signal between
//! hundred-row batches, and on natural completion emits the
//! end-of-stored-events sentinel, exactly once, after every row.
use vstd::prelude::*;

use crate::query::{QueryResult, QueryResultModel};

verus! {

/// The sentinel row closing a subscription's historical replay.
pub open spec fn spec_eose(sub_id: Seq<char>) -> QueryResultModel {
    QueryResultModel { sub_id, event: "EOSE"@ }
}

/// The models of a list of query results.
pub open spec fn qr_models(rs: Seq<QueryResult>) -> Seq<QueryResultModel> {
    rs.map_values(|r: QueryResult| r@)
}

/// The historical rows as results for one subscription, in row order.
pub open spec fn spec_result_rows(rows: Seq<Seq<char>>, sub_id: Seq<char>) -> Seq<
    QueryResultModel,
>
    decreases rows.len(),
{
    if rows.len() == 0 {
        Seq::empty()
    } else {
        spec_result_rows(rows.drop_last(), sub_id).push(
            QueryResultModel { sub_id, event: rows.last() },
        )
    }
}

/// Where a cancellation observed after `k` streamed rows stops the
/// worker: the next poll, polls coming before rows 0, 100, 200, and so
/// on. `None` when the rows run out first, so the replay completes.
pub open spec fn spec_cancel_point(k: int, len: int) -> Option<int> {
    let p = ((k + 99) / 100) * 100;
    if p < len {
        Some(p)
    } else {
        None
    }
}

/// Everything the worker sends for one query: all rows and then the
/// sentinel when it completes; only whole batches up to the observed
/// cancellation when it is cancelled, and then no sentinel.
pub open spec fn spec_worker_output(
    rows: Seq<Seq<char>>,
    sub_id: Seq<char>,
    cancel_after: Option<int>,
) -> Seq<QueryResultModel> {
    let stop = match cancel_after {
        None => None,
        Some(k) => spec_cancel_point(k, rows.len() as int),
    };
    match stop {
        None => spec_result_rows(rows, sub_id).push(spec_eose(sub_id)),
        Some(p) => spec_result_rows(rows.take(p), sub_id),
    }
}

/// Whether the worker polls its cancellation signal before this row.
pub fn cancel_poll_due(row_count: usize) -> (r: bool)
    ensures
        r == (row_count as int % 100 == 0),
{
    row_count % 100 == 0
}

/// How long a full result channel is tolerated before the query is
/// abandoned, in milliseconds.
pub const SLOW_CONSUMER_ABORT_MILLIS: u64 = 5000;

/// Whether a worker blocked on a full result channel gives up: the last
/// successful send is longer ago than the eviction cutoff.
pub fn should_abort_slow(now_millis: u64, last_send_millis: u64) -> (r: bool)
    requires
        last_send_millis <= now_millis,
    ensures
        r == (now_millis > last_send_millis + SLOW_CONSUMER_ABORT_MILLIS),
{
    now_millis - last_send_millis > SLOW_CONSUMER_ABORT_MILLIS
}

/// The end-of-stored-events sentinel for a subscription.
pub fn eose_sentinel(sub_id: String) -> (r: QueryResult)
    ensures
        r@ == spec_eose(sub_id@),
{
    QueryResult { sub_id, event: String::from_str("EOSE") }
}

/// Replay one query's rows for a subscription, observing a cancellation
/// signal that arrives after `cancel_after` rows have been streamed
/// (`None`: it never arrives). A cancelled worker stops at the next
/// hundred-row poll; a completed one closes with the sentinel.
pub fn worker_output(rows: &Vec<String>, sub_id: &String, cancel_after: Option<usize>) -> (out:
    Vec<QueryResult>)
    ensures
        qr_models(out@) == spec_worker_output(
            rows.deep_view(),
            sub_id@,
            match cancel_after {
                Some(k) => Some(k as int),
                None => None,
            },
        ),
{
    let ghost rm = rows.deep_view();
    let ghost stop: Option<int> = match cancel_after {
        None => None,
        Some(k) => spec_cancel_point(k as int, rm.len() as int),
    };
    let mut out: Vec<QueryResult> = Vec::new();
    let mut i: usize = 0;
    proof {
        assert(qr_models(out@) =~= spec_result_rows(rm.take(0), sub_id@));
    }
    while i < rows.len()
        invariant
            i <= rows.len(),
            rm == rows.deep_view(),
            rm.len() == rows@.len(),
            qr_models(out@) == spec_result_rows(rm.take(i as int), sub_id@),
            stop == (match cancel_after {
                None => None::<int>,
                Some(k) => spec_cancel_point(k as int, rm.len() as int),
            }),
            stop is Some ==> i <= stop.unwrap(),
            stop is None && cancel_after is Some ==> ((cancel_after.unwrap() as int + 99) / 100)
                * 100 >= rm.len(),
        decreases rows.len() - i,
    {
        let poll = cancel_poll_due(i);
        let cancelled = poll && (match cancel_after {
            Some(k) => k <= i,
            None => false,
        });
        if cancelled {
            proof {
                let k = cancel_after.unwrap() as int;
                let p = ((k + 99) / 100) * 100;
                assert(k <= i && i as int % 100 == 0);
                assert(p <= i as int) by (nonlinear_arith)
                    requires
                        p == ((k + 99) / 100) * 100,
                        k <= i as int,
                        i as int % 100 == 0,
                        0 <= k,
                        0 <= i as int,
                ;
                assert(p < rm.len());
                assert(stop == Some(p));
                assert(i as int <= p);
                assert(p == i as int);
            }
            return out;
        }
        proof {
            assert(rm[i as int] == rows@[i as int]@);
            assert(rm.take(i as int + 1).drop_last() =~= rm.take(i as int));
            assert(rm.take(i as int + 1).last() == rm[i as int]);
        }
        let ghost pre = out@;
        out.push(QueryResult { sub_id: sub_id.clone(), event: rows[i].clone() });
        proof {
            assert(qr_models(out@) =~= qr_models(pre).push(out@.last()@));
            assert(qr_models(out@) =~= spec_result_rows(rm.take(i as int + 1), sub_id@));
            if stop is Some {
                let k = cancel_after.unwrap() as int;
                let p = ((k + 99) / 100) * 100;
                assert(p == stop.unwrap());
                if i as int % 100 == 0 {
                    assert(k > i as int);
                    assert(p >= k) by (nonlinear_arith)
                        requires
                            p == ((k + 99) / 100) * 100,
                            0 <= k,
                    ;
                    assert(i as int + 1 <= p);
                } else {
                    assert(p % 100 == 0) by (nonlinear_arith)
                        requires
                            p == ((k + 99) / 100) * 100,
                    ;
                    assert(i as int != p);
                    assert(i as int + 1 <= p);
                }
            }
        }
        i += 1;
    }
    proof {
        assert(rm.take(rm.len() as int) =~= rm);
        if stop is Some {
            assert(stop.unwrap() < rm.len());
            assert(false);
        }
    }
    let ghost pre = out@;
    out.push(eose_sentinel(sub_id.clone()));
    proof {
        assert(qr_models(out@) =~= qr_models(pre).push(out@.last()@));
        assert(qr_models(out@) =~= spec_result_rows(rm, sub_id@).push(spec_eose(sub_id@)));
    }
    out
}

/// How many entries of the stream are the sentinel for this
/// subscription.
pub open spec fn spec_count_eose(stream: Seq<QueryResultModel>, sub_id: Seq<char>) -> int
    decreases stream.len(),
{
    if stream.len() == 0 {
        0
    } else {
        spec_count_eose(stream.drop_last(), sub_id) + (if stream.last() == spec_eose(sub_id) {
            1int
        } else {
            0
        })
    }
}

proof fn lemma_count_eose_rows(rows: Seq<Seq<char>>, sub_id: Seq<char>)
    requires
        forall|i: int| 0 <= i < rows.len() ==> #[trigger] rows[i] != "EOSE"@,
    ensures
        spec_count_eose(spec_result_rows(rows, sub_id), sub_id) == 0,
    decreases rows.len(),
{
    if rows.len() > 0 {
        lemma_count_eose_rows(rows.drop_last(), sub_id);
        let r = spec_result_rows(rows, sub_id);
        assert(r.drop_last() =~= spec_result_rows(rows.drop_last(), sub_id));
        assert(r.last().event == rows.last());
    }
}

proof fn lemma_count_eose_concat(a: Seq<QueryResultModel>, b: Seq<QueryResultModel>, sub_id: Seq<char>)
    ensures
        spec_count_eose(a + b, sub_id) == spec_count_eose(a, sub_id) + spec_count_eose(b, sub_id),
    decreases b.len(),
{
    if b.len() == 0 {
        assert(a + b =~= a);
    } else {
        lemma_count_eose_concat(a, b.drop_last(), sub_id);
        assert((a + b).drop_last() =~= a + b.drop_last());
        assert((a + b).last() == b.last());
    }
}

/// Law: for one subscription, the completed historical replay followed
/// by any run of live messages carries exactly one end-of-stored-events
/// sentinel; it sits after every historical row and before every live
/// message. Historical rows are serialized events, which are never the
/// bare sentinel text, and live messages are likewise events.
pub proof fn lemma_eose_separates(
    rows: Seq<Seq<char>>,
    sub_id: Seq<char>,
    live: Seq<QueryResultModel>,
)
    requires
        forall|i: int| 0 <= i < rows.len() ==> #[trigger] rows[i] != "EOSE"@,
        forall|i: int| 0 <= i < live.len() ==> #[trigger] live[i].event != "EOSE"@,
    ensures
        ({
            let stream = spec_worker_output(rows, sub_id, None) + live;
            &&& stream.len() == rows.len() + 1 + live.len()
            &&& spec_count_eose(stream, sub_id) == 1
            &&& stream[rows.len() as int] == spec_eose(sub_id)
            &&& forall|i: int|
                0 <= i < rows.len() ==> #[trigger] stream[i] == QueryResultModel {
                    sub_id,
                    event: rows[i],
                }
            &&& forall|i: int|
                rows.len() < i < stream.len() ==> #[trigger] stream[i] == live[
                    i - rows.len() - 1
                ]
        }),
{
    let hist = spec_result_rows(rows, sub_id);
    lemma_result_rows_index(rows, sub_id);
    let completed = hist.push(spec_eose(sub_id));
    let stream = spec_worker_output(rows, sub_id, None) + live;
    assert(completed.len() == rows.len() + 1);
    lemma_count_eose_rows(rows, sub_id);
    assert(spec_count_eose(completed, sub_id) == 1) by {
        assert(completed.drop_last() =~= hist);
        assert(completed.last() == spec_eose(sub_id));
    }
    lemma_count_eose_concat(completed, live, sub_id);
    assert(spec_count_eose(live, sub_id) == 0) by {
        lemma_count_eose_live(live, sub_id);
    }
    assert(stream[rows.len() as int] == completed[rows.len() as int]);
}

proof fn lemma_count_eose_live(live: Seq<QueryResultModel>, sub_id: Seq<char>)
    requires
        forall|i: int| 0 <= i < live.len() ==> #[trigger] live[i].event != "EOSE"@,
    ensures
        spec_count_eose(live, sub_id) == 0,
    decreases live.len(),
{
    if live.len() > 0 {
        lemma_count_eose_live(live.drop_last(), sub_id);
        assert(live[live.len() - 1].event != "EOSE"@);
    }
}

proof fn lemma_result_rows_index(rows: Seq<Seq<char>>, sub_id: Seq<char>)
    ensures
        spec_result_rows(rows, sub_id).len() == rows.len(),
        forall|i: int|
            0 <= i < rows.len() ==> #[trigger] spec_result_rows(rows, sub_id)[i] == (
            QueryResultModel { sub_id, event: rows[i] }),
    decreases rows.len(),
{
    if rows.len() > 0 {
        lemma_result_rows_index(rows.drop_last(), sub_id);
        assert(forall|i: int|
            0 <= i < rows.len() - 1 ==> #[trigger] rows.drop_last()[i] == rows[i]);
    }
}

} // verus!
