//! What holds of every run of the reactor.
//!
//! A run is a sequence of events, each taken in by the state the one before
//! left behind. The theorems here speak of all such sequences: tokens never
//! collide, a released token can be handed out again, messages leave in the
//! order they came, and the writer is never reported writable twice on one
//! request.

use vstd::prelude::*;
use crate::forwarder::Fatal;
use crate::forwarder::ForwarderState;
use crate::incoming::IncomingState;
use crate::incoming::ReadEvent;
use crate::payload::buffer_bytes;
use crate::payload::filled;
use crate::token::Token;
use crate::token::OUTGOING;

verus! {

/// One thing that happens to the reactor.
pub enum Event<S> {
    /// The accept call on a ready listener returned, with a socket or
    /// without one.
    Accept(Option<S>),
    /// The read on the connection under the token returned.
    Read(Token, ReadEvent),
    /// The token was reported writable.
    Writable(Token),
    /// The writer was armed on request.
    Rearm,
}

impl<L, S, U, A> ForwarderState<L, S, U, A> {
    /// The state `event` leads to, or the reason it is fatal.
    pub open spec fn step(self, event: Event<S>) -> Result<Self, Fatal> {
        match event {
            Event::Accept(accepted) => Ok(self.after_accept(accepted)),
            Event::Read(token, read) => Ok(self.after_read(token, read)),
            Event::Writable(token) => match self.writable_fault(token) {
                Some(fatal) => Err(fatal),
                None => Ok(self.after_writable()),
            },
            Event::Rearm => Ok(self.after_rearm()),
        }
    }

    /// The state a sequence of events leads to, first event first, or the
    /// reason the first fatal one among them is fatal.
    pub open spec fn run(self, events: Seq<Event<S>>) -> Result<Self, Fatal>
        decreases events.len(),
    {
        if events.len() == 0 {
            Ok(self)
        } else {
            match self.step(events[0]) {
                Ok(next) => next.run(events.drop_first()),
                Err(fatal) => Err(fatal),
            }
        }
    }

    /// Whether `event` asks for one more report of write readiness: an
    /// explicit request does, and so does a read on a live connection.
    pub open spec fn arms(self, event: Event<S>) -> bool {
        match event {
            Event::Read(token, _) => self.incoming.streams.contains_key(token),
            Event::Rearm => true,
            _ => false,
        }
    }

    /// The messages `event` puts on the queue.
    pub open spec fn queued_by(self, event: Event<S>) -> Seq<Seq<u8>> {
        match event {
            Event::Read(token, ReadEvent::Read(buffer, count)) => if count != 0
                && self.incoming.streams.contains_key(token) {
                seq![filled(buffer_bytes(buffer), count)]
            } else {
                Seq::empty()
            },
            _ => Seq::empty(),
        }
    }

    /// The messages `event` hands to the caller for sending.
    pub open spec fn drained_by(self, event: Event<S>) -> Seq<Seq<u8>> {
        match event {
            Event::Writable(token) => if self.writable_fault(token) is None {
                self.incoming.pending
            } else {
                Seq::empty()
            },
            _ => Seq::empty(),
        }
    }

    /// All messages put on the queue during a run, in the order of the
    /// events that put them there.
    pub open spec fn queued_during(self, events: Seq<Event<S>>) -> Seq<Seq<u8>>
        decreases events.len(),
    {
        if events.len() == 0 {
            Seq::empty()
        } else {
            match self.step(events[0]) {
                Ok(next) => self.queued_by(events[0]) + next.queued_during(events.drop_first()),
                Err(_) => Seq::empty(),
            }
        }
    }

    /// All messages handed over for sending during a run, in the order they
    /// were handed over.
    pub open spec fn drained_during(self, events: Seq<Event<S>>) -> Seq<Seq<u8>>
        decreases events.len(),
    {
        if events.len() == 0 {
            Seq::empty()
        } else {
            match self.step(events[0]) {
                Ok(next) => self.drained_by(events[0]) + next.drained_during(events.drop_first()),
                Err(_) => Seq::empty(),
            }
        }
    }

    /// The number of writable reports that were handled during a run.
    pub open spec fn deliveries_during(self, events: Seq<Event<S>>) -> nat
        decreases events.len(),
    {
        if events.len() == 0 {
            0
        } else {
            match self.step(events[0]) {
                Ok(next) => (if events[0] is Writable {
                    1nat
                } else {
                    0nat
                }) + next.deliveries_during(events.drop_first()),
                Err(_) => 0,
            }
        }
    }

    /// The number of events during a run that armed the writer.
    pub open spec fn requests_during(self, events: Seq<Event<S>>) -> nat
        decreases events.len(),
    {
        if events.len() == 0 {
            0
        } else {
            match self.step(events[0]) {
                Ok(next) => (if self.arms(events[0]) {
                    1nat
                } else {
                    0nat
                }) + next.requests_during(events.drop_first()),
                Err(_) => 0,
            }
        }
    }
}

/// A single event keeps the token space in order: listeners, the first
/// connection token and the capacity stay, and every live connection token
/// stays within `[first, first + capacity)`.
pub proof fn lemma_step_keeps_token_space<L, S, U, A>(
    state: ForwarderState<L, S, U, A>,
    event: Event<S>,
)
    requires
        state.incoming.wf(),
    ensures
        state.step(event) matches Ok(next) ==> {
            &&& next.incoming.wf()
            &&& next.incoming.listeners == state.incoming.listeners
            &&& next.incoming.first == state.incoming.first
            &&& next.incoming.capacity == state.incoming.capacity
        },
{
    match event {
        Event::Accept(Some(socket)) => {
            if !state.incoming.is_full() {
                state.incoming.lemma_lowest_free();
            }
        },
        _ => {},
    }
}

/// Whatever sequence of accepts, reads, closes and writable reports the
/// reactor takes in, the token space stays in order: token 0 is the writer,
/// listener tokens lie in `[1, first)`, and each live connection has a token
/// of its own in `[first, first + capacity)`.
pub proof fn lemma_run_keeps_token_space<L, S, U, A>(
    state: ForwarderState<L, S, U, A>,
    events: Seq<Event<S>>,
)
    requires
        state.incoming.wf(),
    ensures
        state.run(events) matches Ok(end) ==> {
            &&& end.incoming.wf()
            &&& end.incoming.listeners == state.incoming.listeners
            &&& end.incoming.first == state.incoming.first
            &&& end.incoming.capacity == state.incoming.capacity
            &&& !end.incoming.streams.contains_key(OUTGOING)
            &&& forall|t: Token| #[trigger]
                end.incoming.streams.contains_key(t) ==> !end.incoming.listeners.contains_key(t)
        },
    decreases events.len(),
{
    if events.len() > 0 {
        lemma_step_keeps_token_space(state, events[0]);
        if let Ok(next) = state.step(events[0]) {
            lemma_run_keeps_token_space(next, events.drop_first());
        }
    }
}

/// An accepted socket never takes the place of a live connection: the token
/// it gets was free, and every connection that was live before is live
/// after, under the same token and with the same socket.
pub proof fn lemma_accept_spares_live_connections<L, S>(state: IncomingState<L, S>, socket: S)
    requires
        state.wf(),
        !state.is_full(),
    ensures
        !state.streams.contains_key(state.lowest_free()),
        state.after_accept(Some(socket)).streams.contains_key(state.lowest_free()),
        state.after_accept(Some(socket)).streams[state.lowest_free()] == socket,
        forall|t: Token| #[trigger]
            state.streams.contains_key(t) ==> {
                &&& state.after_accept(Some(socket)).streams.contains_key(t)
                &&& state.after_accept(Some(socket)).streams[t] == state.streams[t]
            },
        state.after_accept(Some(socket)).streams.remove(state.lowest_free()) == state.streams,
{
    state.lemma_lowest_free();
    assert(state.after_accept(Some(socket)).streams.remove(state.lowest_free())
        =~= state.streams);
}

/// A read of zero bytes on a live connection frees its token at once: the
/// token is no longer live, the table is not full, and the next accept gets a
/// token no higher than the freed one. If every lower token is live, the
/// next accept gets the freed token itself.
pub proof fn lemma_closed_token_is_reusable<L, S>(
    state: IncomingState<L, S>,
    token: Token,
    buffer: bytes::BytesMut,
    socket: S,
)
    requires
        state.wf(),
        state.streams.contains_key(token),
    ensures
        ({
            let closed = state.after_read(token, ReadEvent::Read(buffer, 0));
            &&& closed.wf()
            &&& !closed.streams.contains_key(token)
            &&& closed.pending == state.pending
            &&& !closed.is_full()
            &&& closed.lowest_free() <= token
            &&& (forall|u: Token| state.first <= u < token ==> #[trigger] state.streams.contains_key(u))
                ==> closed.lowest_free() == token
            &&& forall|t: Token| #[trigger]
                closed.streams.contains_key(t) ==> {
                    &&& closed.after_accept(Some(socket)).streams.contains_key(t)
                    &&& closed.after_accept(Some(socket)).streams[t] == state.streams[t]
                }
        }),
{
    let closed = state.after_read(token, ReadEvent::Read(buffer, 0));
    assert(!closed.streams.contains_key(token));
    closed.lemma_lowest_free();
    if token < closed.lowest_free() {
        assert(closed.streams.contains_key(token));
    }
    if forall|u: Token| state.first <= u < token ==> #[trigger] state.streams.contains_key(u) {
        assert forall|u: Token| closed.first <= u < token implies #[trigger] closed.streams.contains_key(u) by {
            assert(state.streams.contains_key(u));
        }
        assert(closed.is_lowest_free(token));
    }
    lemma_accept_spares_live_connections(closed, socket);
}

/// One event moves messages only from the back of the arrival order to the
/// front of the departure order.
proof fn lemma_step_keeps_order<L, S, U, A>(state: ForwarderState<L, S, U, A>, event: Event<S>)
    ensures
        state.step(event) matches Ok(next) ==> state.incoming.pending + state.queued_by(event)
            == state.drained_by(event) + next.incoming.pending,
{
    if let Ok(next) = state.step(event) {
        assert(state.incoming.pending + state.queued_by(event) =~= state.drained_by(event)
            + next.incoming.pending);
    }
}

/// Messages leave in the order they arrived, whichever connections they came
/// from and however reads and writable reports interleave: what was pending
/// at the start followed by everything queued during the run equals
/// everything handed over for sending followed by what is still pending.
pub proof fn lemma_messages_leave_in_arrival_order<L, S, U, A>(
    state: ForwarderState<L, S, U, A>,
    events: Seq<Event<S>>,
)
    ensures
        state.run(events) matches Ok(end) ==> state.incoming.pending + state.queued_during(events)
            == state.drained_during(events) + end.incoming.pending,
    decreases events.len(),
{
    if events.len() == 0 {
        assert(state.incoming.pending + state.queued_during(events) =~= state.drained_during(
            events,
        ) + state.incoming.pending);
    } else if let Ok(next) = state.step(events[0]) {
        let rest = events.drop_first();
        lemma_step_keeps_order(state, events[0]);
        lemma_messages_leave_in_arrival_order(next, rest);
        if let Ok(end) = next.run(rest) {
            let arrived = state.incoming.pending + state.queued_by(events[0]);
            assert(state.incoming.pending + state.queued_during(events) =~= arrived
                + next.queued_during(rest));
            assert(arrived + next.queued_during(rest) =~= state.drained_by(events[0]) + (
            next.incoming.pending + next.queued_during(rest)));
            assert(state.drained_by(events[0]) + (next.drained_during(rest) + end.incoming.pending)
                =~= state.drained_during(events) + end.incoming.pending);
        }
    }
}

/// A handled writable report uses up the request it answers: the next
/// writable report, with nothing in between, is fatal.
pub proof fn lemma_writable_uses_up_request<L, S, U, A>(state: ForwarderState<L, S, U, A>)
    ensures
        state.step(Event::Writable(OUTGOING)) matches Ok(next) ==> {
            &&& state.outgoing.armed
            &&& !next.outgoing.armed
            &&& next.step(Event::Writable(OUTGOING)) == Err::<ForwarderState<L, S, U, A>, Fatal>(
                Fatal::NotArmed,
            )
        },
{
}

/// The writer is reported writable at most once per request: in any run,
/// the handled writable reports number no more than the arming events, plus
/// one if the writer was armed at the start. Where the run meets no fatal
/// event and leaves the writer armed, one request is still unanswered.
pub proof fn lemma_one_delivery_per_request<L, S, U, A>(
    state: ForwarderState<L, S, U, A>,
    events: Seq<Event<S>>,
)
    ensures
        state.deliveries_during(events) <= state.requests_during(events) + (if state.outgoing.armed {
            1nat
        } else {
            0nat
        }),
        state.run(events) matches Ok(end) ==> state.deliveries_during(events) + (if end.outgoing.armed {
            1nat
        } else {
            0nat
        }) <= state.requests_during(events) + (if state.outgoing.armed {
            1nat
        } else {
            0nat
        }),
    decreases events.len(),
{
    if events.len() > 0 {
        if let Ok(next) = state.step(events[0]) {
            lemma_one_delivery_per_request(next, events.drop_first());
        }
    }
}

/// Without a request there is no report: a disarmed writer that nothing arms
/// is never reported writable, however long the run.
pub proof fn lemma_no_report_without_request<L, S, U, A>(
    state: ForwarderState<L, S, U, A>,
    events: Seq<Event<S>>,
)
    requires
        !state.outgoing.armed,
        state.requests_during(events) == 0,
    ensures
        state.deliveries_during(events) == 0,
{
    lemma_one_delivery_per_request(state, events);
}

} // verus!
