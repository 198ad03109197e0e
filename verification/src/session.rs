//! The session multiplexer, as a state machine.
//!
//! One session serves one query at a time, in the order of submission. The
//! caller owns the socket and the channels: it reports what happens
//! (a submission, a packet, a dropped handle, an I/O error) and carries out
//! what the session decides.

use crate::errors::{ErrorKind, KlickhouseError};
use crate::protocol::ServerPacketId;
use vstd::prelude::*;

verus! {

/// What a session is doing.
#[derive(Debug, Clone, Copy, PartialEq, Eq, Structural)]
pub enum Phase {
    /// No query is in flight.
    Idle,
    /// The reply to query `id` is being read; `cancelled` says that its
    /// handle was dropped and its packets are thrown away.
    Serving { id: u64, cancelled: bool },
    /// An I/O error ended the session.
    Closed,
}

/// What to do with a packet that arrived.
#[derive(Debug, Clone, Copy, PartialEq, Eq, Structural)]
pub enum Delivery {
    /// Push the block to the download channel of this query.
    Block(u64),
    /// Hand the packet to the side channel of this query, if it listens.
    Notice(u64),
    /// Deliver the exception as the last element of the download channel
    /// of this query, then close the channel.
    Exception(u64),
    /// Close the download channel of this query.
    Close(u64),
    /// Read the packet and throw it away.
    Discard,
}

/// What a session decides about a packet: what to do with it, and the
/// query to send next, if the packet ended a reply and one is waiting.
#[derive(Debug, Clone, Copy, PartialEq, Eq, Structural)]
pub struct Step {
    pub delivery: Delivery,
    pub send_next: Option<u64>,
}

/// The multiplexer of one connection.
#[derive(Debug)]
pub struct Session {
    phase: Phase,
    queue: Vec<u64>,
    max_pending: usize,
}

/// What is done with a packet of kind `kind` that belongs to the reply to
/// query `id`.
pub open spec fn spec_deliver(kind: ServerPacketId, id: u64, cancelled: bool) -> Delivery {
    match kind {
        ServerPacketId::Exception => if cancelled {
            Delivery::Discard
        } else {
            Delivery::Exception(id)
        },
        ServerPacketId::EndOfStream => if cancelled {
            Delivery::Discard
        } else {
            Delivery::Close(id)
        },
        ServerPacketId::Data | ServerPacketId::Totals | ServerPacketId::Extremes => if cancelled {
            Delivery::Discard
        } else {
            Delivery::Block(id)
        },
        ServerPacketId::Hello | ServerPacketId::Pong => Delivery::Discard,
        _ => if cancelled {
            Delivery::Discard
        } else {
            Delivery::Notice(id)
        },
    }
}

/// What the methods of a session speak of: what it is doing, and the
/// queries that wait, in the order of their submission.
pub struct SessionModel {
    pub phase: Phase,
    pub waiting: Seq<u64>,
}

/// What a packet of kind `kind` does to a session: what is decided about
/// the packet, and the session after it. While a query is served, the
/// packet belongs to its reply; a packet that ends the reply makes the
/// query that has waited longest the one that is served, or leaves the
/// session idle where none waits. A packet on a session that serves no
/// query is thrown away.
pub open spec fn spec_on_packet(s: SessionModel, kind: ServerPacketId) -> (Step, SessionModel) {
    match s.phase {
        Phase::Serving { id, cancelled } => {
            let delivery = spec_deliver(kind, id, cancelled);
            if !kind.spec_ends_reply() {
                (Step { delivery, send_next: None }, s)
            } else if s.waiting.len() > 0 {
                (
                    Step { delivery, send_next: Some(s.waiting[0]) },
                    SessionModel {
                        phase: Phase::Serving { id: s.waiting[0], cancelled: false },
                        waiting: s.waiting.skip(1),
                    },
                )
            } else {
                (
                    Step { delivery, send_next: None },
                    SessionModel { phase: Phase::Idle, waiting: s.waiting },
                )
            }
        },
        _ => (Step { delivery: Delivery::Discard, send_next: None }, s),
    }
}

/// The session after the packets of the kinds `kinds` arrived, in this
/// order.
pub open spec fn after_packets(s: SessionModel, kinds: Seq<ServerPacketId>) -> SessionModel
    decreases kinds.len(),
{
    if kinds.len() == 0 {
        s
    } else {
        after_packets(spec_on_packet(s, kinds[0]).1, kinds.skip(1))
    }
}

/// What is decided about each of the packets of the kinds `kinds`, which
/// arrive in this order.
pub open spec fn steps_of(s: SessionModel, kinds: Seq<ServerPacketId>) -> Seq<Step>
    decreases kinds.len(),
{
    if kinds.len() == 0 {
        Seq::empty()
    } else {
        seq![spec_on_packet(s, kinds[0]).0] + steps_of(
            spec_on_packet(s, kinds[0]).1,
            kinds.skip(1),
        )
    }
}

impl Session {
    /// What the session is doing.
    pub closed spec fn phase(&self) -> Phase {
        self.phase
    }

    /// The queries that wait, in the order of their submission.
    pub closed spec fn waiting(&self) -> Seq<u64> {
        self.queue@
    }

    /// The number of queries that may wait.
    pub closed spec fn capacity(&self) -> nat {
        self.max_pending as nat
    }

    /// What the session is doing and what waits.
    pub open spec fn model(&self) -> SessionModel {
        SessionModel { phase: self.phase(), waiting: self.waiting() }
    }

    /// Nothing waits while nothing is served.
    pub open spec fn well_formed(&self) -> bool {
        !(self.phase() is Serving) ==> self.waiting().len() == 0
    }

    /// A session on a fresh connection, in which `max_pending` queries may
    /// wait.
    pub fn new(max_pending: usize) -> (r: Self)
        ensures
            r.phase() == Phase::Idle,
            r.waiting() == Seq::<u64>::empty(),
            r.capacity() == max_pending,
            r.well_formed(),
    {
        Session { phase: Phase::Idle, queue: Vec::new(), max_pending }
    }

    /// Whether nothing waits while nothing is served: true of every
    /// session that was made by [`Session::new`] and changed by the
    /// methods of this type alone.
    pub fn is_well_formed(&self) -> (r: bool)
        ensures
            r == self.well_formed(),
    {
        match self.phase {
            Phase::Serving { .. } => true,
            _ => self.queue.len() == 0,
        }
    }

    /// Whether an I/O error ended the session.
    pub fn is_closed(&self) -> (r: bool)
        ensures
            r == (self.phase() == Phase::Closed),
    {
        match self.phase {
            Phase::Closed => true,
            _ => false,
        }
    }

    /// The query whose reply is being read.
    pub fn serving(&self) -> (r: Option<u64>)
        ensures
            r == (match self.phase() {
                Phase::Serving { id, cancelled } => Some(id),
                _ => None,
            }),
    {
        match self.phase {
            Phase::Serving { id, cancelled } => Some(id),
            _ => None,
        }
    }

    /// A caller submits query `id`. On an idle session the query is to be
    /// sent at once (`Ok(true)`); on a busy one it waits behind those
    /// submitted before it (`Ok(false)`). A closed session refuses with a
    /// connection error, a full queue with a protocol error; both leave the
    /// session as it was.
    pub fn submit(&mut self, id: u64) -> (r: Result<bool, KlickhouseError>)
        requires
            old(self).well_formed(),
        ensures
            final(self).well_formed(),
            final(self).capacity() == old(self).capacity(),
            match old(self).phase() {
                Phase::Closed => (r matches Err(e) && e.kind() == ErrorKind::ConnectionError)
                    && final(self).phase() == old(self).phase()
                        && final(self).waiting() == old(self).waiting(),
                Phase::Idle => r == Ok::<bool, KlickhouseError>(true) && final(self).phase()
                    == (Phase::Serving { id, cancelled: false })
                        && final(self).waiting() == old(self).waiting(),
                Phase::Serving { .. } => if old(self).waiting().len() < old(self).capacity() {
                    r == Ok::<bool, KlickhouseError>(false)
                        && final(self).phase() == old(self).phase()
                            && final(self).waiting() == old(self).waiting().push(id)
                } else {
                    (r matches Err(e) && e.kind() == ErrorKind::ProtocolError)
                        && final(self).phase() == old(self).phase()
                            && final(self).waiting() == old(self).waiting()
                },
            },
    {
        match self.phase {
            Phase::Closed => Err(KlickhouseError::ConnectionError("session is closed".to_owned())),
            Phase::Idle => {
                self.phase = Phase::Serving { id, cancelled: false };
                Ok(true)
            },
            Phase::Serving { .. } => {
                if self.queue.len() < self.max_pending {
                    self.queue.push(id);
                    Ok(false)
                } else {
                    Err(KlickhouseError::ProtocolError("too many pending queries".to_owned()))
                }
            },
        }
    }

    /// A packet of kind `kind` arrived. While a query is served, the packet
    /// belongs to its reply and to no other query; an exception or the end
    /// of the stream ends the reply, and the query that has waited longest
    /// is to be sent next. A packet on an idle session is thrown away.
    pub fn on_packet(&mut self, kind: ServerPacketId) -> (r: Step)
        requires
            old(self).well_formed(),
        ensures
            final(self).well_formed(),
            final(self).capacity() == old(self).capacity(),
            (r, final(self).model()) == spec_on_packet(old(self).model(), kind),
            match old(self).phase() {
                Phase::Serving { id, cancelled } => r.delivery == spec_deliver(
                    kind,
                    id,
                    cancelled,
                ) && (if kind.spec_ends_reply() {
                    if old(self).waiting().len() > 0 {
                        r.send_next == Some(old(self).waiting()[0]) && final(self).phase()
                            == (Phase::Serving { id: old(self).waiting()[0], cancelled: false })
                            && final(self).waiting() == old(self).waiting().skip(1)
                    } else {
                        r.send_next is None && final(self).phase() == Phase::Idle
                            && final(self).waiting() == old(self).waiting()
                    }
                } else {
                    r.send_next is None && final(self).phase() == old(self).phase()
                        && final(self).waiting() == old(self).waiting()
                }),
                _ => r == (Step { delivery: Delivery::Discard, send_next: None })
                    && final(self).phase() == old(self).phase()
                        && final(self).waiting() == old(self).waiting(),
            },
    {
        let (id, cancelled) = match self.phase {
            Phase::Serving { id, cancelled } => (id, cancelled),
            _ => {
                return Step { delivery: Delivery::Discard, send_next: None };
            },
        };
        let delivery = match kind {
            ServerPacketId::Exception => if cancelled {
                Delivery::Discard
            } else {
                Delivery::Exception(id)
            },
            ServerPacketId::EndOfStream => if cancelled {
                Delivery::Discard
            } else {
                Delivery::Close(id)
            },
            ServerPacketId::Data | ServerPacketId::Totals | ServerPacketId::Extremes => if cancelled {
                Delivery::Discard
            } else {
                Delivery::Block(id)
            },
            ServerPacketId::Hello | ServerPacketId::Pong => Delivery::Discard,
            _ => if cancelled {
                Delivery::Discard
            } else {
                Delivery::Notice(id)
            },
        };
        if !kind.ends_reply() {
            return Step { delivery, send_next: None };
        }
        if self.queue.len() > 0 {
            let ghost before = self.queue@;
            let next = self.queue.remove(0);
            assert(self.queue@ =~= before.skip(1));
            self.phase = Phase::Serving { id: next, cancelled: false };
            Step { delivery, send_next: Some(next) }
        } else {
            self.phase = Phase::Idle;
            Step { delivery, send_next: None }
        }
    }

    /// The handle of query `id` was dropped. If the query is being served
    /// and was not cancelled before, a cancel packet is to be sent (`true`),
    /// and the rest of its reply is thrown away; the session goes on
    /// reading until the reply ends. A query that waits is taken out of the
    /// queue; the order of the others stays.
    pub fn on_handle_dropped(&mut self, id: u64) -> (r: bool)
        requires
            old(self).well_formed(),
        ensures
            final(self).well_formed(),
            final(self).capacity() == old(self).capacity(),
            match old(self).phase() {
                Phase::Serving { id: served, cancelled } => if served == id {
                    r == !cancelled && final(self).phase() == (Phase::Serving {
                        id,
                        cancelled: true,
                    }) && final(self).waiting() == old(self).waiting()
                } else {
                    !r && final(self).phase() == old(self).phase()
                        && final(self).waiting() == old(self).waiting().filter(|other: u64| other != id)
                },
                _ => !r && final(self).phase() == old(self).phase()
                    && final(self).waiting() == old(self).waiting(),
            },
    {
        match self.phase {
            Phase::Serving { id: served, cancelled } => {
                if served == id {
                    self.phase = Phase::Serving { id, cancelled: true };
                    !cancelled
                } else {
                    let ghost before = self.queue@;
                    let ghost keep = |other: u64| other != id;
                    let mut kept: Vec<u64> = Vec::new();
                    let mut i: usize = 0;
                    proof {
                        reveal(Seq::filter);
                        assert(before.take(0) =~= Seq::<u64>::empty());
                        assert(before.take(0).filter(keep) =~= Seq::<u64>::empty());
                    }
                    while i < self.queue.len()
                        invariant
                            i <= self.queue@.len(),
                            self.queue@ == before,
                            keep == (|other: u64| other != id),
                            kept@ == before.take(i as int).filter(keep),
                        decreases self.queue@.len() - i,
                    {
                        let other = self.queue[i];
                        proof {
                            reveal(Seq::filter);
                            assert(before.take(i + 1).drop_last() =~= before.take(i as int));
                            assert(before.take(i + 1).last() == other);
                        }
                        if other != id {
                            kept.push(other);
                        }
                        i += 1;
                    }
                    assert(before.take(before.len() as int) =~= before);
                    self.queue = kept;
                    false
                }
            },
            _ => false,
        }
    }

    /// The socket failed. The session is closed for good; the queries that
    /// come back, the one being served first and then those that waited,
    /// are to be failed with a connection error.
    pub fn on_io_error(&mut self) -> (r: Vec<u64>)
        requires
            old(self).well_formed(),
        ensures
            final(self).well_formed(),
            final(self).phase() == Phase::Closed,
            final(self).waiting() == Seq::<u64>::empty(),
            final(self).capacity() == old(self).capacity(),
            r@ == (match old(self).phase() {
                Phase::Serving { id, cancelled } => seq![id] + old(self).waiting(),
                _ => old(self).waiting(),
            }),
    {
        let mut failed: Vec<u64> = Vec::new();
        match self.phase {
            Phase::Serving { id, cancelled } => {
                failed.push(id);
            },
            _ => {},
        }
        let ghost head = failed@;
        failed.append(&mut self.queue);
        self.phase = Phase::Closed;
        assert(failed@ =~= head + old(self).waiting());
        failed
    }
}

/// The error that every query of a closed session is failed with.
pub fn connection_lost() -> (e: KlickhouseError)
    ensures
        e.says(ErrorKind::ConnectionError, "connection lost"@),
{
    KlickhouseError::ConnectionError("connection lost".to_owned())
}

impl Delivery {
    /// The query that something is delivered to.
    pub open spec fn target(self) -> Option<u64> {
        match self {
            Delivery::Block(id) => Some(id),
            Delivery::Notice(id) => Some(id),
            Delivery::Exception(id) => Some(id),
            Delivery::Close(id) => Some(id),
            Delivery::Discard => None,
        }
    }
}

/// Queries do not see each other's packets: whatever arrives while a query
/// is served is delivered to that query or to none, and to none once the
/// query was cancelled. The download channel of a query is closed by the
/// packets that end its reply, and by no others.
pub proof fn lemma_packets_go_to_the_query_served(kind: ServerPacketId, id: u64, cancelled: bool)
    ensures
        spec_deliver(kind, id, cancelled).target() is None || spec_deliver(
            kind,
            id,
            cancelled,
        ).target() == Some(id),
        cancelled ==> spec_deliver(kind, id, cancelled) == Delivery::Discard,
        !cancelled ==> (kind.spec_ends_reply() <==> (spec_deliver(kind, id, cancelled)
            is Exception || spec_deliver(kind, id, cancelled) is Close)),
{
}

/// A reply is drained to its end. While query `id` is served and was not
/// cancelled, let packets arrive of which none ends the reply, and then one
/// that does: the end of the stream, or an exception. Each packet in front
/// is handed to the query as [`spec_deliver`] says and starts no other
/// query; the last one closes the channel of the query, cleanly or with the
/// exception. After it the session is open and aligned for the next query:
/// it serves the query that waited longest, which is to be sent now, or is
/// idle where none waited.
pub proof fn lemma_reply_is_drained(
    id: u64,
    waiting: Seq<u64>,
    body: Seq<ServerPacketId>,
    last: ServerPacketId,
)
    requires
        forall|i: int| 0 <= i < body.len() ==> !(#[trigger] body[i]).spec_ends_reply(),
        last.spec_ends_reply(),
    ensures
        ({
            let start = SessionModel { phase: Phase::Serving { id, cancelled: false }, waiting };
            let kinds = body.push(last);
            let steps = steps_of(start, kinds);
            &&& steps.len() == body.len() + 1
            &&& forall|i: int|
                0 <= i < body.len() ==> #[trigger] steps[i] == (Step {
                    delivery: spec_deliver(body[i], id, false),
                    send_next: None,
                })
            &&& steps[body.len() as int].delivery == (if last == ServerPacketId::EndOfStream {
                Delivery::Close(id)
            } else {
                Delivery::Exception(id)
            })
            &&& steps[body.len() as int].send_next == (if waiting.len() > 0 {
                Some(waiting[0])
            } else {
                None
            })
            &&& after_packets(start, kinds) == (if waiting.len() > 0 {
                SessionModel {
                    phase: Phase::Serving { id: waiting[0], cancelled: false },
                    waiting: waiting.skip(1),
                }
            } else {
                SessionModel { phase: Phase::Idle, waiting }
            })
            &&& !(after_packets(start, kinds).phase is Closed)
        }),
    decreases body.len(),
{
    let start = SessionModel { phase: Phase::Serving { id, cancelled: false }, waiting };
    let kinds = body.push(last);
    if body.len() == 0 {
        assert(kinds[0] == last);
        assert(kinds.skip(1) =~= Seq::<ServerPacketId>::empty());
        let next = spec_on_packet(start, last).1;
        assert(steps_of(next, kinds.skip(1)) =~= Seq::<Step>::empty());
        assert(after_packets(next, kinds.skip(1)) == next);
        assert(steps_of(start, kinds) =~= seq![spec_on_packet(start, last).0]);
    } else {
        let rest = body.skip(1);
        assert(kinds[0] == body[0]);
        assert(!body[0].spec_ends_reply());
        assert(kinds.skip(1) =~= rest.push(last));
        assert(spec_on_packet(start, body[0]).1 == start);
        assert forall|i: int| 0 <= i < rest.len() implies !(#[trigger] rest[i]).spec_ends_reply() by {
            assert(rest[i] == body[i + 1]);
        }
        lemma_reply_is_drained(id, waiting, rest, last);
        let tail = steps_of(start, rest.push(last));
        let steps = steps_of(start, kinds);
        assert(steps =~= seq![spec_on_packet(start, body[0]).0] + tail);
        assert forall|i: int| 0 <= i < body.len() implies #[trigger] steps[i] == (Step {
            delivery: spec_deliver(body[i], id, false),
            send_next: None,
        }) by {
            if i > 0 {
                assert(steps[i] == tail[i - 1]);
                assert(rest[i - 1] == body[i]);
            }
        }
        assert(steps[body.len() as int] == tail[rest.len() as int]);
    }
}

} // verus!
