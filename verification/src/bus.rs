//! The broadcast bus: a lossy multi-subscriber log with a bounded
//! backlog per subscriber. Publishing always succeeds; a subscriber
//! that falls behind the backlog is told so and resumes at the oldest
//! retained message, never seeing messages out of publish order.
use vstd::prelude::*;

verus! {

/// The bus: everything published, in order, and the backlog bound.
pub struct Bus {
    pub log: Vec<String>,
    pub capacity: usize,
}

/// The models of the published messages.
pub open spec fn msg_models(ms: Seq<String>) -> Seq<Seq<char>> {
    ms.map_values(|m: String| m@)
}

impl Bus {
    /// The backlog bound is positive.
    pub open spec fn wf(&self) -> bool {
        self.capacity >= 1
    }

    /// A bus with the given per-subscriber backlog.
    pub fn new(capacity: usize) -> (r: Bus)
        requires
            capacity >= 1,
        ensures
            r.wf(),
            msg_models(r.log@) == Seq::<Seq<char>>::empty(),
            r.capacity == capacity,
    {
        let r = Bus { log: Vec::new(), capacity };
        proof {
            assert(msg_models(r.log@) =~= Seq::<Seq<char>>::empty());
        }
        r
    }

    /// Publish one message. This is total: the bus never blocks a
    /// publisher, whatever any subscriber is doing.
    pub fn publish(&mut self, msg: String)
        requires
            old(self).wf(),
        ensures
            final(self).wf(),
            final(self).capacity == old(self).capacity,
            msg_models(final(self).log@) == msg_models(old(self).log@).push(msg@),
    {
        let ghost pre = self.log@;
        self.log.push(msg);
        proof {
            assert(msg_models(self.log@) =~= msg_models(pre).push(self.log@.last()@));
        }
    }
}

/// One subscriber's position in the log.
pub struct BusReceiver {
    pub cursor: usize,
}

/// What one receive yields.
pub enum RecvOutcome {
    /// Nothing new has been published.
    Empty,
    /// The subscriber lagged past the backlog; it resumes at the oldest
    /// retained message and must resync its subscriptions.
    Lagged,
    /// The next message, in publish order.
    Message(String),
}

impl BusReceiver {
    /// A subscriber that joins now: it sees only later messages.
    pub fn subscribe(bus: &Bus) -> (r: BusReceiver)
        ensures
            r.cursor == bus.log@.len(),
    {
        BusReceiver { cursor: bus.log.len() }
    }

    /// Receive the next message. A lagged subscriber is signalled once
    /// and jumps forward to the oldest retained message; otherwise the
    /// message at the cursor is delivered, so successive receives see
    /// strictly increasing log positions: publish order, never inverted.
    pub fn recv(&mut self, bus: &Bus) -> (r: RecvOutcome)
        requires
            bus.wf(),
            old(self).cursor <= bus.log@.len(),
        ensures
            final(self).cursor <= bus.log@.len(),
            final(self).cursor >= old(self).cursor,
            match r {
                RecvOutcome::Empty => old(self).cursor == bus.log@.len() && final(self).cursor
                    == old(self).cursor,
                RecvOutcome::Lagged => bus.log@.len() - old(self).cursor > bus.capacity
                    && final(self).cursor == bus.log@.len() - bus.capacity,
                RecvOutcome::Message(m) => bus.log@.len() - old(self).cursor <= bus.capacity
                    && old(self).cursor < bus.log@.len() && m@ == bus.log@[
                    old(self).cursor as int
                ]@ && final(self).cursor == old(self).cursor + 1,
            },
    {
        let len = bus.log.len();
        if len - self.cursor > bus.capacity {
            self.cursor = len - bus.capacity;
            return RecvOutcome::Lagged;
        }
        if self.cursor == len {
            return RecvOutcome::Empty;
        }
        let m = bus.log[self.cursor].clone();
        self.cursor = self.cursor + 1;
        RecvOutcome::Message(m)
    }

    /// Receive everything available. The first component says whether
    /// the subscriber had lagged; the messages handed back are exactly
    /// a suffix of the published log, in publish order — a subscriber
    /// may lose a prefix to the bounded backlog but never sees an
    /// ordering inversion among the messages it does receive.
    pub fn drain(&mut self, bus: &Bus) -> (r: (bool, Vec<String>))
        requires
            bus.wf(),
            old(self).cursor <= bus.log@.len(),
        ensures
            final(self).cursor == bus.log@.len(),
            r.0 == (bus.log@.len() - old(self).cursor > bus.capacity),
            msg_models(r.1@) == msg_models(bus.log@).skip(
                if bus.log@.len() - old(self).cursor > bus.capacity {
                    bus.log@.len() - bus.capacity
                } else {
                    old(self).cursor as int
                },
            ),
    {
        let len = bus.log.len();
        let lagged = len - self.cursor > bus.capacity;
        if lagged {
            self.cursor = len - bus.capacity;
        }
        let ghost start = self.cursor as int;
        let mut out: Vec<String> = Vec::new();
        proof {
            assert(msg_models(out@) =~= msg_models(bus.log@).subrange(start, start));
        }
        while self.cursor < bus.log.len()
            invariant
                0 <= start <= self.cursor as int <= bus.log@.len(),
                msg_models(out@) == msg_models(bus.log@).subrange(start, self.cursor as int),
            decreases bus.log@.len() - self.cursor,
        {
            let ghost pre = out@;
            let c = self.cursor;
            out.push(bus.log[c].clone());
            self.cursor = c + 1;
            proof {
                assert(msg_models(bus.log@)[c as int] == bus.log@[c as int]@);
                assert(msg_models(out@) =~= msg_models(pre).push(out@.last()@));
                assert(msg_models(bus.log@).subrange(start, c as int + 1) =~= msg_models(
                    bus.log@,
                ).subrange(start, c as int).push(msg_models(bus.log@)[c as int]));
                assert(msg_models(out@) =~= msg_models(bus.log@).subrange(start, c as int + 1));
            }
        }
        proof {
            assert(msg_models(bus.log@).subrange(start, bus.log@.len() as int) =~= msg_models(
                bus.log@,
            ).skip(start));
        }
        (lagged, out)
    }
}

} // verus!
