//! The bounded outbound queue of a connection: byte messages waiting to be
//! written, in the order they were sent. A sender that finds it full waits
//! (gets its message back) until the writer takes one out.

use vstd::prelude::*;
use std::collections::VecDeque;

verus! {

/// How many messages a connection's outbound queue holds.
pub const OUTBOUND_CAPACITY: usize = 16;

/// The queue as a value: the messages waiting, and the bound.
pub struct QueueView {
    pub pending: Seq<Seq<u8>>,
    pub capacity: nat,
}

/// Sending into a queue: the new queue, or `None` when it is full and the
/// sender must wait.
pub open spec fn spec_try_send(q: QueueView, msg: Seq<u8>) -> Option<QueueView> {
    if q.pending.len() < q.capacity {
        Some(QueueView { pending: q.pending.push(msg), capacity: q.capacity })
    } else {
        None
    }
}

/// Taking the oldest message out, if there is one.
pub open spec fn spec_recv(q: QueueView) -> (Option<Seq<u8>>, QueueView) {
    if q.pending.len() == 0 {
        (None, q)
    } else {
        (Some(q.pending[0]), QueueView { pending: q.pending.drop_first(), capacity: q.capacity })
    }
}

/// Sending every message of `msgs` in turn, none taken out in between;
/// `None` as soon as one would have to wait.
pub open spec fn spec_send_all(q: QueueView, msgs: Seq<Seq<u8>>) -> Option<QueueView>
    decreases msgs.len(),
{
    if msgs.len() == 0 {
        Some(q)
    } else {
        match spec_try_send(q, msgs[0]) {
            Some(q2) => spec_send_all(q2, msgs.drop_first()),
            None => None,
        }
    }
}

/// A bounded FIFO of byte messages.
pub struct OutboundQueue {
    items: VecDeque<Vec<u8>>,
    capacity: usize,
    /// Every message ever accepted, in order.
    enqueued: Ghost<Seq<Seq<u8>>>,
    /// Every message ever taken out, in order.
    delivered: Ghost<Seq<Seq<u8>>>,
}

impl View for OutboundQueue {
    type V = QueueView;

    closed spec fn view(&self) -> QueueView {
        QueueView { pending: self.items@.map_values(|v: Vec<u8>| v@), capacity: self.capacity as nat }
    }
}

impl OutboundQueue {
    pub closed spec fn enqueued(&self) -> Seq<Seq<u8>> {
        self.enqueued@
    }

    pub closed spec fn delivered(&self) -> Seq<Seq<u8>> {
        self.delivered@
    }

    /// Well-formed: within its bound, and what was accepted is what was
    /// taken out followed by what waits.
    pub open spec fn wf(&self) -> bool {
        &&& 0 < self@.capacity
        &&& self@.pending.len() <= self@.capacity
        &&& self.enqueued() == self.delivered() + self@.pending
    }

    /// An empty queue that holds at most `capacity` messages.
    pub fn new(capacity: usize) -> (r: OutboundQueue)
        requires
            capacity > 0,
        ensures
            r.wf(),
            r@ == (QueueView { pending: Seq::empty(), capacity: capacity as nat }),
            r.enqueued() == Seq::<Seq<u8>>::empty(),
            r.delivered() == Seq::<Seq<u8>>::empty(),
    {
        let r = OutboundQueue {
            items: VecDeque::new(),
            capacity,
            enqueued: Ghost(Seq::empty()),
            delivered: Ghost(Seq::empty()),
        };
        assert(r@.pending =~= Seq::<Seq<u8>>::empty());
        r
    }

    /// Number of messages waiting.
    pub fn len(&self) -> (r: usize)
        ensures
            r == self@.pending.len(),
    {
        self.items.len()
    }

    /// Whether a sender would have to wait.
    pub fn is_full(&self) -> (r: bool)
        requires
            self.wf(),
        ensures
            r == (spec_try_send(self@, Seq::empty()) is None),
    {
        self.items.len() >= self.capacity
    }

    /// Puts `msg` at the back; hands it back when the queue is full, so that
    /// the sender can wait and try again.
    pub fn try_send(&mut self, msg: Vec<u8>) -> (r: Result<(), Vec<u8>>)
        requires
            old(self).wf(),
        ensures
            final(self).wf(),
            match spec_try_send(old(self)@, msg@) {
                Some(q) => r is Ok && final(self)@ == q && final(self).enqueued() == old(
                    self,
                ).enqueued().push(msg@),
                None => r == Err::<(), Vec<u8>>(msg) && final(self)@ == old(self)@
                    && final(self).enqueued() == old(self).enqueued(),
            },
            final(self).delivered() == old(self).delivered(),
    {
        if self.items.len() >= self.capacity {
            return Err(msg);
        }
        let ghost m = msg@;
        self.items.push_back(msg);
        proof {
            self.enqueued@ = self.enqueued@.push(m);
            assert(self@.pending =~= old(self)@.pending.push(m));
            assert(self.enqueued@ =~= self.delivered@ + self@.pending);
        }
        Ok(())
    }

    /// Takes out the oldest message.
    pub fn recv(&mut self) -> (r: Option<Vec<u8>>)
        requires
            old(self).wf(),
        ensures
            final(self).wf(),
            (match r {
                Some(m) => Some(m@),
                None => None,
            }, final(self)@) == spec_recv(old(self)@),
            final(self).enqueued() == old(self).enqueued(),
            final(self).delivered() == match r {
                Some(m) => old(self).delivered().push(m@),
                None => old(self).delivered(),
            },
    {
        let r = self.items.pop_front();
        proof {
            match &r {
                Some(m) => {
                    assert(self@.pending =~= old(self)@.pending.drop_first());
                    self.delivered@ = self.delivered@.push(m@);
                    assert(self.enqueued@ =~= self.delivered@ + self@.pending);
                },
                None => {},
            }
        }
        r
    }
}

/// A queue of capacity `C` takes `C` messages with none taken out; the next
/// one has to wait; once a single message is taken out, that one goes in.
pub proof fn lemma_full_queue_waits(cap: nat, msgs: Seq<Seq<u8>>, extra: Seq<u8>)
    requires
        cap > 0,
        msgs.len() == cap,
    ensures
        spec_send_all(QueueView { pending: Seq::empty(), capacity: cap }, msgs) is Some,
        ({
            let q = spec_send_all(QueueView { pending: Seq::empty(), capacity: cap }, msgs).unwrap();
            &&& q.pending == msgs
            &&& spec_try_send(q, extra) is None
            &&& spec_recv(q).0 == Some(msgs[0])
            &&& spec_try_send(spec_recv(q).1, extra) is Some
        }),
{
    lemma_send_all_appends(QueueView { pending: Seq::empty(), capacity: cap }, msgs);
    assert(Seq::<Seq<u8>>::empty() + msgs =~= msgs);
}

proof fn lemma_send_all_appends(q: QueueView, msgs: Seq<Seq<u8>>)
    requires
        q.pending.len() + msgs.len() <= q.capacity,
    ensures
        spec_send_all(q, msgs) == Some(QueueView { pending: q.pending + msgs, capacity: q.capacity }),
    decreases msgs.len(),
{
    if msgs.len() == 0 {
        assert(q.pending + msgs =~= q.pending);
    } else {
        let q2 = QueueView { pending: q.pending.push(msgs[0]), capacity: q.capacity };
        lemma_send_all_appends(q2, msgs.drop_first());
        assert(q2.pending + msgs.drop_first() =~= q.pending + msgs);
    }
}

} // verus!
