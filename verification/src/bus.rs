//! The event broadcast fabric: a bounded, multi-subscriber fan-out of event
//! records.
//!
//! Producers publish into a shared stream; each subscriber holds a cursor
//! into that stream and, when it polls, receives every event published since
//! it subscribed, in publish order — except that a subscriber that falls more
//! than the capacity behind silently loses its oldest undelivered events.
//! Publishing never waits on any subscriber.

use vstd::prelude::*;

use crate::model::AgentEvent;
use crate::model::AgentEventV;

verus! {

/// Where a poll starts in the stream: at the subscriber's cursor, unless the
/// bounded buffer has already dropped events past it.
pub open spec fn poll_start(cursor: int, len: int, capacity: int) -> int {
    if cursor >= len - capacity {
        cursor
    } else {
        len - capacity
    }
}

/// Bounded broadcast channel for event records.
pub struct EventBus {
    buffer: Vec<AgentEvent>,
    base: usize,
    capacity: usize,
    cursors: Vec<usize>,
    history: Ghost<Seq<AgentEventV>>,
}

/// Specification-level value of the bus: the whole stream of events ever
/// published, each subscriber's position in it, and the buffer bound.
#[verifier::ext_equal]
pub ghost struct EventBusV {
    pub history: Seq<AgentEventV>,
    pub cursors: Seq<usize>,
    pub capacity: usize,
}

impl View for EventBus {
    type V = EventBusV;

    closed spec fn view(&self) -> EventBusV {
        EventBusV { history: self.history@, cursors: self.cursors@, capacity: self.capacity }
    }
}

impl EventBus {
    /// The buffer holds exactly the newest stretch of the stream, and every
    /// cursor lies within the stream.
    pub closed spec fn wf(self) -> bool {
        &&& self.capacity >= 1
        &&& self.history@.len() <= usize::MAX
        &&& self.buffer@.len() == (if self.history@.len() <= self.capacity {
            self.history@.len() as int
        } else {
            self.capacity as int
        })
        &&& self.base + self.buffer@.len() == self.history@.len()
        &&& self.buffer.deep_view() == self.history@.subrange(
            self.base as int,
            self.history@.len() as int,
        )
        &&& forall|k: int| 0 <= k < self.cursors@.len() ==> self.cursors@[k] <= self.history@.len()
    }

    /// An empty bus with the given buffer bound.
    pub fn new(capacity: usize) -> (bus: EventBus)
        requires
            capacity >= 1,
        ensures
            bus.wf(),
            bus@.history.len() == 0,
            bus@.cursors.len() == 0,
            bus@.capacity == capacity,
    {
        let bus = EventBus {
            buffer: Vec::new(),
            base: 0,
            capacity,
            cursors: Vec::new(),
            history: Ghost(Seq::empty()),
        };
        proof {
            assert(bus.buffer.deep_view() =~= bus.history@.subrange(0, 0));
        }
        bus
    }

    /// Appends one event to the stream, dropping the oldest buffered event
    /// if the buffer is full. No subscriber's cursor moves, and no
    /// subscriber can delay or block this.
    pub fn publish(&mut self, event: &AgentEvent)
        requires
            old(self).wf(),
            old(self)@.history.len() < usize::MAX,
        ensures
            final(self).wf(),
            final(self)@.history == old(self)@.history.push(event@),
            final(self)@.cursors == old(self)@.cursors,
            final(self)@.capacity == old(self)@.capacity,
    {
        let ghost h0 = self.history@;
        let ghost b0 = self.buffer.deep_view();
        if self.buffer.len() == self.capacity {
            self.buffer.remove(0);
            self.base = self.base + 1;
            proof {
                assert forall|j: int| 0 <= j < self.buffer@.len() implies self.buffer.deep_view()[j]
                    == b0[j + 1] by {
                    assert(self.buffer@[j] == old(self).buffer@[j + 1]);
                }
                assert(self.buffer.deep_view() =~= b0.subrange(1, b0.len() as int));
            }
        }
        let ghost b1 = self.buffer.deep_view();
        let c = event.clone();
        self.buffer.push(c);
        self.history = Ghost(self.history@.push(event@));
        proof {
            assert(self.buffer.deep_view() =~= b1.push(event@));
            assert(self.buffer.deep_view() =~= self.history@.subrange(
                self.base as int,
                self.history@.len() as int,
            ));
        }
    }

    /// Registers a new subscriber; it will observe exactly the events
    /// published after this call. Returns the subscriber's handle.
    pub fn subscribe(&mut self) -> (id: usize)
        requires
            old(self).wf(),
        ensures
            final(self).wf(),
            final(self)@.history == old(self)@.history,
            final(self)@.capacity == old(self)@.capacity,
            id == old(self)@.cursors.len(),
            final(self)@.cursors == old(self)@.cursors.push(
                old(self)@.history.len() as usize,
            ),
    {
        let id = self.cursors.len();
        let here = self.base + self.buffer.len();
        self.cursors.push(here);
        id
    }

    /// Hands the subscriber every event published since its cursor, in
    /// publish order — or, if it has fallen more than the capacity behind,
    /// the newest stretch the buffer still holds — and advances its cursor
    /// to the end of the stream.
    pub fn poll(&mut self, id: usize) -> (out: Vec<AgentEvent>)
        requires
            old(self).wf(),
            id < old(self)@.cursors.len(),
        ensures
            final(self).wf(),
            final(self)@.history == old(self)@.history,
            final(self)@.capacity == old(self)@.capacity,
            final(self)@.cursors == old(self)@.cursors.update(
                id as int,
                old(self)@.history.len() as usize,
            ),
            out.deep_view() == old(self)@.history.subrange(
                poll_start(
                    old(self)@.cursors[id as int] as int,
                    old(self)@.history.len() as int,
                    old(self)@.capacity as int,
                ),
                old(self)@.history.len() as int,
            ),
    {
        let ghost h = self.history@;
        let cur = self.cursors[id];
        let start = if cur > self.base {
            cur
        } else {
            self.base
        };
        proof {
            assert(start == poll_start(cur as int, h.len() as int, self.capacity as int));
        }
        let mut out: Vec<AgentEvent> = Vec::new();
        let mut k = start - self.base;
        let m = self.buffer.len();
        while k < m
            invariant
                k <= m,
                m == self.buffer@.len(),
                self.wf(),
                h == self.history@,
                self.base <= start <= h.len(),
                start <= self.base + k,
                self.base + k <= h.len(),
                out.deep_view() =~= h.subrange(start as int, self.base + k),
            decreases m - k,
        {
            let ghost pre = out.deep_view();
            let c = self.buffer[k].clone();
            proof {
                assert(c@ == self.buffer@[k as int]@);
                assert(self.buffer.deep_view()[k as int] == self.buffer@[k as int]@);
                assert(c@ == h[self.base + k]);
            }
            out.push(c);
            k = k + 1;
            proof {
                assert(out.deep_view() =~= pre.push(h[self.base + k - 1]));
                assert(out.deep_view().len() == self.base + k - start);
                assert forall|j: int| 0 <= j < out.deep_view().len() implies out.deep_view()[j]
                    == h[start + j] by {
                    if j < pre.len() {
                        assert(pre[j] == h.subrange(start as int, self.base + k - 1)[j]);
                        assert(pre[j] == h[start + j]);
                    } else {
                        assert(out.deep_view()[j] == h[self.base + k - 1]);
                    }
                }
                assert(out.deep_view() =~= h.subrange(start as int, self.base + k));
            }
        }
        let here = self.base + self.buffer.len();
        let slot = &mut self.cursors[id];
        *slot = here;
        proof {
            assert(out.deep_view() =~= h.subrange(start as int, h.len() as int));
        }
        out
    }
}

/// A subscriber that joined before a run of publishes and has not fallen
/// behind the buffer bound observes exactly those events, in publish order.
pub proof fn lemma_subscriber_sees_in_order(
    h0: Seq<AgentEventV>,
    es: Seq<AgentEventV>,
    cursor: int,
    capacity: int,
)
    requires
        cursor == h0.len(),
        es.len() <= capacity,
    ensures
        (h0 + es).subrange(poll_start(cursor, (h0 + es).len() as int, capacity), (h0
            + es).len() as int) == es,
{
    let h = h0 + es;
    assert(poll_start(cursor, h.len() as int, capacity) == cursor);
    assert(h.subrange(cursor, h.len() as int) =~= es);
}

} // verus!
