//! The decisions of a connection task: what to do with the next outbound
//! message, and how a failed read ends the connection. The task itself (the
//! socket, the waiting) runs around these decisions.

use vstd::prelude::*;
use crate::queue::{OutboundQueue, QueueView, spec_try_send, spec_recv, OUTBOUND_CAPACITY};

verus! {

/// The kinds of read failure that the task tells apart.
#[derive(Debug, Clone, Copy, PartialEq, Eq, Structural)]
pub enum ReadErrorKind {
    UnexpectedEof,
    ConnectionReset,
    ConnectionAborted,
    TimedOut,
    BrokenPipe,
    NotConnected,
    Other,
}

/// How a read failure ends the connection.
#[derive(Debug, Clone, Copy, PartialEq, Eq, Structural)]
pub enum DisconnectClass {
    /// The peer went away: end of stream, reset or abort.
    Normal,
    /// Timed out, broken pipe or not connected: worth a log line.
    Logged,
    /// Anything else: reported as an error before the disconnect.
    Fault,
}

pub open spec fn spec_classify(kind: ReadErrorKind) -> DisconnectClass {
    match kind {
        ReadErrorKind::UnexpectedEof | ReadErrorKind::ConnectionReset
        | ReadErrorKind::ConnectionAborted => DisconnectClass::Normal,
        ReadErrorKind::TimedOut | ReadErrorKind::BrokenPipe
        | ReadErrorKind::NotConnected => DisconnectClass::Logged,
        ReadErrorKind::Other => DisconnectClass::Fault,
    }
}

/// Sorts a read failure into the disconnect taxonomy.
pub fn classify(kind: ReadErrorKind) -> (r: DisconnectClass)
    ensures
        r == spec_classify(kind),
{
    match kind {
        ReadErrorKind::UnexpectedEof | ReadErrorKind::ConnectionReset
        | ReadErrorKind::ConnectionAborted => DisconnectClass::Normal,
        ReadErrorKind::TimedOut | ReadErrorKind::BrokenPipe
        | ReadErrorKind::NotConnected => DisconnectClass::Logged,
        ReadErrorKind::Other => DisconnectClass::Fault,
    }
}

/// What a connection task reports to its server.
#[derive(Debug, Clone, PartialEq, Eq)]
pub enum TaskSignal {
    Error(String),
    Disconnected(u64),
}

/// What the task does with the next outbound message.
#[derive(Debug, Clone, PartialEq, Eq)]
pub enum Outbound {
    /// Write these bytes to the socket.
    Write(Vec<u8>),
    /// The shutdown sentinel came: shut the write half, report the
    /// disconnect, and stop.
    Shutdown,
    /// Nothing waits.
    Idle,
}

/// One connection's outbound side and lifecycle.
pub struct ConnectionTask {
    id: u64,
    queue: OutboundQueue,
    closed: bool,
    /// Every message written to the socket, in order.
    written: Ghost<Seq<Seq<u8>>>,
}

impl ConnectionTask {
    pub closed spec fn id(&self) -> u64 {
        self.id
    }

    pub closed spec fn queue(&self) -> QueueView {
        self.queue@
    }

    pub closed spec fn is_closed(&self) -> bool {
        self.closed
    }

    /// Every message accepted for sending, in order.
    pub closed spec fn enqueued(&self) -> Seq<Seq<u8>> {
        self.queue.enqueued()
    }

    /// Every message written to the socket, in order.
    pub closed spec fn written(&self) -> Seq<Seq<u8>> {
        self.written@
    }

    /// Well-formed: the bytes accepted are the bytes written followed by the
    /// bytes still waiting (the empty sentinel adds none).
    pub closed spec fn wf(&self) -> bool {
        &&& self.queue.wf()
        &&& self.queue.delivered().flatten() == self.written@.flatten()
    }

    /// A fresh task for connection `id`, with an empty queue of the standard
    /// capacity.
    pub fn new(id: u64) -> (r: ConnectionTask)
        ensures
            r.wf(),
            r.id() == id,
            !r.is_closed(),
            r.queue() == (QueueView { pending: Seq::empty(), capacity: OUTBOUND_CAPACITY as nat }),
            r.enqueued() == Seq::<Seq<u8>>::empty(),
            r.written() == Seq::<Seq<u8>>::empty(),
    {
        ConnectionTask {
            id,
            queue: OutboundQueue::new(OUTBOUND_CAPACITY),
            closed: false,
            written: Ghost(Seq::empty()),
        }
    }

    /// The connection's ID.
    pub fn get_id(&self) -> (r: u64)
        ensures
            r == self.id(),
    {
        self.id
    }

    /// Whether the task has stopped.
    pub fn closed(&self) -> (r: bool)
        ensures
            r == self.is_closed(),
    {
        self.closed
    }

    /// Queues `msg` to be written; an empty message asks for a graceful
    /// close. When the queue is full, or the task has stopped, the message
    /// comes back: the sender waits and tries again (or gives up once
    /// closed).
    pub fn send(&mut self, msg: Vec<u8>) -> (r: Result<(), Vec<u8>>)
        requires
            old(self).wf(),
        ensures
            final(self).wf(),
            final(self).id() == old(self).id(),
            final(self).is_closed() == old(self).is_closed(),
            final(self).written() == old(self).written(),
            old(self).is_closed() ==> r == Err::<(), Vec<u8>>(msg) && final(self).queue() == old(
                self,
            ).queue() && final(self).enqueued() == old(self).enqueued(),
            !old(self).is_closed() ==> match spec_try_send(old(self).queue(), msg@) {
                Some(q) => r is Ok && final(self).queue() == q && final(self).enqueued() == old(
                    self,
                ).enqueued().push(msg@),
                None => r == Err::<(), Vec<u8>>(msg) && final(self).queue() == old(self).queue()
                    && final(self).enqueued() == old(self).enqueued(),
            },
    {
        if self.closed {
            return Err(msg);
        }
        self.queue.try_send(msg)
    }

    /// Takes the next outbound message and says what to do with it.
    pub fn next_outbound(&mut self) -> (r: Outbound)
        requires
            old(self).wf(),
        ensures
            final(self).wf(),
            final(self).id() == old(self).id(),
            final(self).enqueued() == old(self).enqueued(),
            old(self).is_closed() ==> r == Outbound::Idle && final(self).queue() == old(self).queue()
                && final(self).written() == old(self).written() && final(self).is_closed(),
            !old(self).is_closed() ==> {
                let (m, q) = spec_recv(old(self).queue());
                &&& final(self).queue() == q
                &&& match m {
                    None => r == Outbound::Idle && !final(self).is_closed() && final(self).written()
                        == old(self).written(),
                    Some(bytes) => if bytes.len() == 0 {
                        r == Outbound::Shutdown && final(self).is_closed() && final(self).written()
                            == old(self).written()
                    } else {
                        (match r {
                            Outbound::Write(v) => v@ == bytes,
                            _ => false,
                        }) && !final(self).is_closed() && final(self).written() == old(
                            self,
                        ).written().push(bytes)
                    },
                }
            },
    {
        if self.closed {
            return Outbound::Idle;
        }
        let ghost d0 = self.queue.delivered();
        match self.queue.recv() {
            None => Outbound::Idle,
            Some(msg) => {
                if msg.len() == 0 {
                    proof {
                        vstd::seq_lib::lemma_flatten_concat(d0, seq![msg@]);
                        assert(seq![msg@].flatten() =~= Seq::<u8>::empty()) by {
                            seq![msg@].lemma_flatten_one_element();
                        }
                        assert(d0.push(msg@) =~= d0 + seq![msg@]);
                        assert(d0.flatten() + Seq::<u8>::empty() =~= d0.flatten());
                    }
                    self.closed = true;
                    Outbound::Shutdown
                } else {
                    proof {
                        let w0 = self.written@;
                        vstd::seq_lib::lemma_flatten_concat(d0, seq![msg@]);
                        vstd::seq_lib::lemma_flatten_concat(w0, seq![msg@]);
                        seq![msg@].lemma_flatten_one_element();
                        assert(d0.push(msg@) =~= d0 + seq![msg@]);
                        assert(w0.push(msg@) =~= w0 + seq![msg@]);
                        self.written@ = w0.push(msg@);
                    }
                    Outbound::Write(msg)
                }
            },
        }
    }

    /// A read failed: the task stops, and reports an error first when the
    /// failure is not a plain disconnect.
    pub fn on_read_error(&mut self, kind: ReadErrorKind, detail: String) -> (r: Vec<TaskSignal>)
        requires
            old(self).wf(),
        ensures
            final(self).wf(),
            final(self).is_closed(),
            final(self).id() == old(self).id(),
            final(self).queue() == old(self).queue(),
            final(self).written() == old(self).written(),
            final(self).enqueued() == old(self).enqueued(),
            spec_classify(kind) == DisconnectClass::Fault ==> r@ == seq![
                TaskSignal::Error(detail),
                TaskSignal::Disconnected(old(self).id()),
            ],
            spec_classify(kind) != DisconnectClass::Fault ==> r@ == seq![
                TaskSignal::Disconnected(old(self).id()),
            ],
    {
        self.closed = true;
        let mut out: Vec<TaskSignal> = Vec::new();
        match classify(kind) {
            DisconnectClass::Fault => {
                out.push(TaskSignal::Error(detail));
            },
            _ => {},
        }
        out.push(TaskSignal::Disconnected(self.id));
        out
    }
}

/// Every byte accepted for sending is either written, in the order it was
/// sent, or still waits; the shutdown sentinel adds no byte.
pub proof fn lemma_bytes_written_in_order(t: ConnectionTask)
    requires
        t.wf(),
    ensures
        t.enqueued().flatten() == t.written().flatten() + t.queue().pending.flatten(),
{
    reveal(ConnectionTask::wf);
    vstd::seq_lib::lemma_flatten_concat(t.queue.delivered(), t.queue@.pending);
}

} // verus!
