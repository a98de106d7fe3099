//! A connection's subscription table: registration, replacement,
//! closing, and the live matching that forwards broadcast events to
//! interested subscriptions.
use vstd::prelude::*;

use crate::event::{Event, EventModel};
use crate::subscription::{spec_sub_matches, Subscription, SubscriptionModel};

verus! {

/// The models of a list of subscriptions.
pub open spec fn sub_models(ss: Seq<Subscription>) -> Seq<SubscriptionModel> {
    ss.map_values(|s: Subscription| s@)
}

/// The table without any entry named `id`.
pub open spec fn spec_remove_sub(subs: Seq<SubscriptionModel>, id: Seq<char>) -> Seq<
    SubscriptionModel,
>
    decreases subs.len(),
{
    if subs.len() == 0 {
        Seq::empty()
    } else if subs.first().id == id {
        spec_remove_sub(subs.drop_first(), id)
    } else {
        seq![subs.first()] + spec_remove_sub(subs.drop_first(), id)
    }
}

/// Some entry carries this subscription id.
pub open spec fn spec_has_sub(subs: Seq<SubscriptionModel>, id: Seq<char>) -> bool {
    exists|i: int| 0 <= i < subs.len() && #[trigger] subs[i].id == id
}

/// The ids of the subscriptions the event matches, in table order.
pub open spec fn spec_live_matches(subs: Seq<SubscriptionModel>, e: EventModel) -> Seq<Seq<char>>
    decreases subs.len(),
{
    if subs.len() == 0 {
        Seq::empty()
    } else {
        let rest = spec_live_matches(subs.drop_last(), e);
        if spec_sub_matches(subs.last(), e) {
            rest.push(subs.last().id)
        } else {
            rest
        }
    }
}

/// One client connection's subscription table.
pub struct ConnState {
    pub subs: Vec<Subscription>,
}

impl View for ConnState {
    type V = Seq<SubscriptionModel>;

    open spec fn view(&self) -> Seq<SubscriptionModel> {
        sub_models(self.subs@)
    }
}

fn remove_sub(subs: Vec<Subscription>, sub_id: &String) -> (r: (Vec<Subscription>, bool))
    ensures
        sub_models(r.0@) == spec_remove_sub(sub_models(subs@), sub_id@),
        r.1 == spec_has_sub(sub_models(subs@), sub_id@),
{
    let ghost orig = sub_models(subs@);
    let mut rest = subs;
    let mut kept: Vec<Subscription> = Vec::new();
    let mut found = false;
    proof {
        assert(sub_models(kept@) =~= Seq::<SubscriptionModel>::empty());
        assert(sub_models(kept@) + spec_remove_sub(sub_models(rest@), sub_id@) =~= spec_remove_sub(
            orig,
            sub_id@,
        ));
        assert(sub_models(rest@) =~= orig);
    }
    while rest.len() > 0
        invariant
            sub_models(kept@) + spec_remove_sub(sub_models(rest@), sub_id@) == spec_remove_sub(
                orig,
                sub_id@,
            ),
            found || spec_has_sub(orig, sub_id@) == spec_has_sub(sub_models(rest@), sub_id@),
            found ==> spec_has_sub(orig, sub_id@),
        decreases rest.len(),
    {
        let ghost rest_pre = sub_models(rest@);
        let ghost kept_pre = sub_models(kept@);
        let s = rest.remove(0);
        let ghost sm = s@;
        proof {
            assert(sub_models(rest@) =~= rest_pre.drop_first());
            assert(rest_pre.first() == sm);
        }
        if s.id.eq(sub_id) {
            found = true;
            proof {
                assert(rest_pre[0].id == sub_id@);
                assert(spec_has_sub(rest_pre, sub_id@));
            }
        } else {
            kept.push(s);
            proof {
                assert(sub_models(kept@) =~= kept_pre.push(sm));
                assert(kept_pre.push(sm) + spec_remove_sub(sub_models(rest@), sub_id@)
                    =~= kept_pre + (seq![sm] + spec_remove_sub(sub_models(rest@), sub_id@)));
                assert(spec_has_sub(rest_pre, sub_id@) == spec_has_sub(
                    sub_models(rest@),
                    sub_id@,
                )) by {
                    if spec_has_sub(rest_pre, sub_id@) {
                        let w = choose|i: int|
                            0 <= i < rest_pre.len() && #[trigger] rest_pre[i].id == sub_id@;
                        assert(w != 0);
                        assert(rest_pre.drop_first()[w - 1].id == sub_id@);
                    }
                    if spec_has_sub(sub_models(rest@), sub_id@) {
                        let w = choose|i: int|
                            0 <= i < rest_pre.drop_first().len() && #[trigger] rest_pre.drop_first()[i].id
                                == sub_id@;
                        assert(rest_pre[w + 1].id == sub_id@);
                    }
                }
            }
        }
    }
    proof {
        assert(sub_models(rest@) =~= Seq::<SubscriptionModel>::empty());
        assert(sub_models(kept@) + Seq::<SubscriptionModel>::empty() =~= sub_models(kept@));
        if !found {
            assert(!spec_has_sub(Seq::<SubscriptionModel>::empty(), sub_id@));
        }
    }
    (kept, found)
}

impl ConnState {
    /// A connection with no subscriptions.
    pub fn new() -> (r: ConnState)
        ensures
            r@ == Seq::<SubscriptionModel>::empty(),
    {
        let r = ConnState { subs: Vec::new() };
        proof {
            assert(r@ =~= Seq::<SubscriptionModel>::empty());
        }
        r
    }

    /// Register a subscription, replacing any entry with the same id.
    /// The result says whether a prior entry existed, whose historical
    /// query the caller must cancel.
    pub fn handle_req(&mut self, sub: Subscription) -> (had_prior: bool)
        ensures
            final(self)@ == spec_remove_sub(old(self)@, sub@.id).push(sub@),
            had_prior == spec_has_sub(old(self)@, sub@.id),
    {
        let ghost sm = sub@;
        let subs = std_take_subs(self);
        let (mut kept, found) = remove_sub(subs, &sub.id);
        let ghost kept_m = sub_models(kept@);
        kept.push(sub);
        proof {
            assert(sub_models(kept@) =~= kept_m.push(sm));
        }
        self.subs = kept;
        found
    }

    /// Close a subscription. The result says whether it existed, so the
    /// caller can fire its cancellation signal.
    pub fn handle_close(&mut self, sub_id: &String) -> (had: bool)
        ensures
            final(self)@ == spec_remove_sub(old(self)@, sub_id@),
            had == spec_has_sub(old(self)@, sub_id@),
    {
        let subs = std_take_subs(self);
        let (kept, found) = remove_sub(subs, sub_id);
        self.subs = kept;
        found
    }

    /// How many subscriptions are registered.
    pub fn len(&self) -> (r: usize)
        ensures
            r == self@.len(),
    {
        self.subs.len()
    }

    /// The ids of the subscriptions this broadcast event matches; the
    /// connection forwards the event under each of them.
    pub fn live_matches(&self, ev: &Event) -> (r: Vec<String>)
        ensures
            crate::bus::msg_models(r@) == spec_live_matches(self@, ev@),
    {
        let ghost sm = self@;
        let mut out: Vec<String> = Vec::new();
        let mut i: usize = 0;
        proof {
            assert(crate::bus::msg_models(out@) =~= spec_live_matches(sm.take(0), ev@));
        }
        while i < self.subs.len()
            invariant
                i <= self.subs.len(),
                sm == self@,
                sm.len() == self.subs@.len(),
                crate::bus::msg_models(out@) == spec_live_matches(sm.take(i as int), ev@),
            decreases self.subs.len() - i,
        {
            proof {
                assert(sm[i as int] == self.subs@[i as int]@);
                assert(sm.take(i as int + 1).drop_last() =~= sm.take(i as int));
                assert(sm.take(i as int + 1).last() == sm[i as int]);
            }
            if self.subs[i].interested_in_event(ev) {
                let ghost pre = out@;
                out.push(self.subs[i].get_id());
                proof {
                    assert(crate::bus::msg_models(out@) =~= crate::bus::msg_models(pre).push(
                        out@.last()@,
                    ));
                    assert(crate::bus::msg_models(out@) =~= spec_live_matches(
                        sm.take(i as int + 1),
                        ev@,
                    ));
                }
            }
            i += 1;
        }
        proof {
            assert(sm.take(sm.len() as int) =~= sm);
        }
        out
    }
}

fn std_take_subs(c: &mut ConnState) -> (r: Vec<Subscription>)
    ensures
        r@ == old(c).subs@,
        final(c).subs@ == Seq::<Subscription>::empty(),
{
    let mut tmp: Vec<Subscription> = Vec::new();
    core::mem::swap(&mut tmp, &mut c.subs);
    tmp
}

/// Law: no id occurs in a table it was removed from.
pub proof fn lemma_removed_absent(subs: Seq<SubscriptionModel>, id: Seq<char>)
    ensures
        !spec_has_sub(spec_remove_sub(subs, id), id),
    decreases subs.len(),
{
    if subs.len() > 0 {
        lemma_removed_absent(subs.drop_first(), id);
        if subs.first().id != id {
            let r = seq![subs.first()] + spec_remove_sub(subs.drop_first(), id);
            if spec_has_sub(r, id) {
                let w = choose|i: int| 0 <= i < r.len() && #[trigger] r[i].id == id;
                assert(w != 0);
                assert(spec_remove_sub(subs.drop_first(), id)[w - 1].id == id);
            }
        }
    }
}

/// Law: every id the live matcher forwards to names a registered
/// subscription.
pub proof fn lemma_live_matches_registered(
    subs: Seq<SubscriptionModel>,
    e: EventModel,
    id: Seq<char>,
)
    ensures
        spec_live_matches(subs, e).contains(id) ==> spec_has_sub(subs, id),
    decreases subs.len(),
{
    if subs.len() > 0 {
        lemma_live_matches_registered(subs.drop_last(), e, id);
        let rest = spec_live_matches(subs.drop_last(), e);
        if spec_live_matches(subs, e).contains(id) {
            if spec_sub_matches(subs.last(), e) {
                let full = rest.push(subs.last().id);
                let w = choose|i: int| 0 <= i < full.len() && full[i] == id;
                if w < rest.len() {
                    assert(rest.contains(id));
                    assert(spec_has_sub(subs.drop_last(), id));
                    let v = choose|i: int|
                        0 <= i < subs.drop_last().len() && #[trigger] subs.drop_last()[i].id == id;
                    assert(subs[v].id == id);
                } else {
                    assert(subs[subs.len() - 1].id == id);
                }
            } else {
                assert(rest.contains(id));
                assert(spec_has_sub(subs.drop_last(), id));
                let v = choose|i: int|
                    0 <= i < subs.drop_last().len() && #[trigger] subs.drop_last()[i].id == id;
                assert(subs[v].id == id);
            }
        }
    }
}

/// Law: once a subscription is closed, no broadcast event is forwarded
/// under its id again — live matching on the table after the close
/// never yields that id.
pub proof fn lemma_close_stops_events(
    subs: Seq<SubscriptionModel>,
    id: Seq<char>,
    e: EventModel,
)
    ensures
        !spec_live_matches(spec_remove_sub(subs, id), e).contains(id),
{
    lemma_removed_absent(subs, id);
    lemma_live_matches_registered(spec_remove_sub(subs, id), e, id);
}

} // verus!

verus! {

/// How often a liveness ping is sent, in milliseconds.
pub const PING_INTERVAL_MILLIS: u64 = 300000;

/// How long a connection may stay silent before it is closed, in
/// milliseconds.
pub const IDLE_DISCONNECT_MILLIS: u64 = 1200000;

/// Decide a ping tick: close the connection when the idle period
/// exceeds the disconnect window; otherwise ping. Any received frame
/// refreshes the idle clock, so only truly silent connections close.
pub fn ping_tick_closes(now_millis: u64, last_message_millis: u64) -> (r: bool)
    requires
        last_message_millis <= now_millis,
    ensures
        r == (now_millis - last_message_millis > IDLE_DISCONNECT_MILLIS),
{
    now_millis - last_message_millis > IDLE_DISCONNECT_MILLIS
}

} // verus!
