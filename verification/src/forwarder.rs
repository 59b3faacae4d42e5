//! The dispatcher: it tells the three classes of token apart and hands each
//! readiness event to the side it belongs to.
//!
//! Token 0 is the outbound socket. The tokens from 1 up to the highest
//! listener token are listeners. Every token above that is a connection slot.
//! An event that does not fit its token's class means the token space is
//! broken; it is reported as [`Fatal`] and changes nothing.

use vstd::prelude::*;
use std::collections::HashMap;
use vstd::std_specs::hash::spec_keys_iter;
use vstd::std_specs::iter::IteratorSpec;
use bytes::Bytes;
use crate::incoming::payloads;
use crate::incoming::Accepted;
use crate::incoming::Incoming;
use crate::incoming::IncomingState;
use crate::incoming::ReadEvent;
use crate::incoming::ReadOutcome;
use crate::incoming::MAX_CONNECTIONS;
use crate::outgoing::Outgoing;
use crate::token::writer_registration;
use crate::token::Registration;
use crate::token::Token;
use crate::token::OUTGOING;

verus! {

broadcast use vstd::std_specs::hash::group_hash_axioms;

/// The class of resource a token denotes.
#[derive(Clone, Copy, Debug, PartialEq, Eq, Structural)]
pub enum TokenKind {
    /// The outbound socket.
    Outgoing,
    /// A listening endpoint.
    Listener,
    /// A connection slot, live or free.
    Connection,
}

/// An event that cannot happen while the token space is intact.
#[derive(Clone, Copy, Debug, PartialEq, Eq, Structural)]
pub enum Fatal {
    /// The outbound socket was reported readable.
    ReadableOnOutgoing,
    /// A token in the listener range that no listener was registered under
    /// was reported readable.
    UnknownListener,
    /// A token other than the outbound one was reported writable.
    WritableOnIncoming,
    /// The outbound socket was reported writable while it was not armed.
    NotArmed,
}

/// What the caller is to do about a readable token before it reports back.
#[derive(Clone, Copy, Debug, PartialEq, Eq, Structural)]
pub enum ReadableStep {
    /// Accept once from the listener, then call `accept`.
    Accept,
    /// Read once from the connection's socket, then call `read`.
    Read,
    /// The connection is gone; there is nothing to do.
    Stale,
}

/// `max` is the highest of `tokens`, or 0 if there are none.
pub open spec fn is_highest(tokens: Set<Token>, max: Token) -> bool {
    &&& forall|t: Token| #[trigger] tokens.contains(t) ==> t <= max
    &&& max == 0 || tokens.contains(max)
}

/// The reactor's state as a mathematical value.
#[verifier::ext_equal]
pub struct ForwarderState<L, S, U, A> {
    pub incoming: IncomingState<L, S>,
    pub outgoing: Outgoing<U, A>,
}

impl<L, S, U, A> ForwarderState<L, S, U, A> {
    /// The highest listener token.
    pub open spec fn token_max(self) -> int {
        self.incoming.first - 1
    }

    /// The class of `token`.
    pub open spec fn kind(self, token: Token) -> TokenKind {
        if token == OUTGOING {
            TokenKind::Outgoing
        } else if token <= self.token_max() {
            TokenKind::Listener
        } else {
            TokenKind::Connection
        }
    }

    /// What a report that `token` is readable calls for.
    pub open spec fn readable_step(self, token: Token) -> Result<ReadableStep, Fatal> {
        match self.kind(token) {
            TokenKind::Outgoing => Err(Fatal::ReadableOnOutgoing),
            TokenKind::Listener => if self.incoming.listeners.contains_key(token) {
                Ok(ReadableStep::Accept)
            } else {
                Err(Fatal::UnknownListener)
            },
            TokenKind::Connection => if self.incoming.streams.contains_key(token) {
                Ok(ReadableStep::Read)
            } else {
                Ok(ReadableStep::Stale)
            },
        }
    }

    /// What is wrong with a report that `token` is writable, if anything.
    pub open spec fn writable_fault(self, token: Token) -> Option<Fatal> {
        if token != OUTGOING {
            Some(Fatal::WritableOnIncoming)
        } else if !self.outgoing.armed {
            Some(Fatal::NotArmed)
        } else {
            None
        }
    }

    /// The state after the writer was armed.
    pub open spec fn after_rearm(self) -> Self {
        ForwarderState { outgoing: Outgoing { armed: true, ..self.outgoing }, ..self }
    }

    /// The state after the result of an accept call was taken in.
    pub open spec fn after_accept(self, accepted: Option<S>) -> Self {
        ForwarderState { incoming: self.incoming.after_accept(accepted), ..self }
    }

    /// The state after a writable report was handled: the queue is empty
    /// and the writer is disarmed.
    pub open spec fn after_writable(self) -> Self {
        ForwarderState {
            incoming: self.incoming.drained(),
            outgoing: Outgoing { armed: false, ..self.outgoing },
        }
    }

    /// The state after the read `event` on `token` was handled: the incoming
    /// side has taken the event in, and if the connection was live the
    /// writer is armed.
    pub open spec fn after_read(self, token: Token, event: ReadEvent) -> Self {
        ForwarderState {
            incoming: self.incoming.after_read(token, event),
            outgoing: Outgoing {
                armed: self.outgoing.armed || self.incoming.streams.contains_key(token),
                ..self.outgoing
            },
        }
    }
}

/// The two sides of the relay and the boundary between listener tokens and
/// connection tokens.
pub struct SyslogForwarder<L, S, U, A> {
    incoming: Incoming<L, S>,
    outgoing: Outgoing<U, A>,
    incoming_token_max: usize,
}

impl<L, S, U, A> View for SyslogForwarder<L, S, U, A> {
    type V = ForwarderState<L, S, U, A>;

    closed spec fn view(&self) -> ForwarderState<L, S, U, A> {
        ForwarderState { incoming: self.incoming@, outgoing: self.outgoing }
    }
}

impl<L, S, U, A> SyslogForwarder<L, S, U, A> {
    /// The incoming side is sound and starts its connection tokens right
    /// above the highest listener token.
    pub closed spec fn wf(&self) -> bool {
        &&& self.incoming.wf()
        &&& self.incoming@.first == self.incoming_token_max + 1
    }

    /// The queue of pending payloads as it is stored.
    pub closed spec fn queue(&self) -> Seq<Bytes> {
        self.incoming.queue()
    }

    /// What well-formedness means for the view.
    pub proof fn lemma_wf(&self)
        requires
            self.wf(),
        ensures
            self@.incoming.wf(),
            self@.incoming.pending == payloads(self.queue()),
    {
    }

    /// A forwarder over the given listeners, each under its token, that
    /// sends from `outgoing_socket` to `syslog_address`. Connection tokens
    /// start right above the highest listener token; the writer starts
    /// disarmed.
    pub fn new(
        incoming_sockets: HashMap<Token, L>,
        outgoing_socket: U,
        syslog_address: A,
    ) -> (forwarder: SyslogForwarder<L, S, U, A>)
        requires
            forall|t: Token| #[trigger]
                incoming_sockets@.contains_key(t) ==> 1 <= t && t + 1 + MAX_CONNECTIONS
                    <= usize::MAX,
        ensures
            forwarder.wf(),
            is_highest(incoming_sockets@.dom(), (forwarder@.incoming.first - 1) as usize),
            forwarder@.incoming == (IncomingState::<L, S> {
                listeners: incoming_sockets@,
                first: forwarder@.incoming.first,
                capacity: MAX_CONNECTIONS,
                streams: Map::empty(),
                pending: Seq::empty(),
            }),
            forwarder@.outgoing == (Outgoing { socket: outgoing_socket, addr: syslog_address, armed: false }),
            forwarder.queue() == Seq::<Bytes>::empty(),
    {
        let ghost keys = spec_keys_iter(&incoming_sockets).remaining();
        let mut max: usize = 0;
        for key in iter: incoming_sockets.keys()
            invariant
                iter.seq() == keys,
                forall|i: int| 0 <= i < iter.index() ==> *(#[trigger] keys[i]) <= max,
                max == 0 || exists|i: int| 0 <= i < iter.index() && *(#[trigger] keys[i]) == max,
        {
            if *key > max {
                max = *key;
            }
        }
        proof {
            assert forall|t: Token| #[trigger] incoming_sockets@.contains_key(t) implies t <= max by {
                assert(keys.unref().to_set().contains(t));
                let i = choose|i: int| 0 <= i < keys.unref().len() && keys.unref()[i] == t;
                assert(*keys[i] == t);
            }
            if max != 0 {
                let i = choose|i: int| 0 <= i < keys.len() && *(#[trigger] keys[i]) == max;
                assert(keys.unref()[i] == max);
                assert(keys.unref().to_set().contains(max));
            }
        }
        SyslogForwarder {
            incoming_token_max: max,
            incoming: Incoming::new(incoming_sockets, max + 1),
            outgoing: Outgoing::new(outgoing_socket, syslog_address),
        }
    }

    /// Whether `token` lies above every listener token.
    pub fn is_connection_token(&self, token: Token) -> (above: bool)
        requires
            self.wf(),
        ensures
            above == (token > self@.token_max()),
    {
        token > self.incoming_token_max
    }

    /// Whether `token` is a listener token: one of the tokens from 1 up to
    /// the highest listener token. Token 0 is the outbound socket's and is
    /// none of them.
    pub fn is_incoming_token(&self, token: Token) -> (within: bool)
        requires
            self.wf(),
        ensures
            within == (1 <= token <= self@.token_max()),
    {
        token != OUTGOING && token <= self.incoming_token_max
    }

    /// The class of `token`.
    pub fn classify(&self, token: Token) -> (kind: TokenKind)
        requires
            self.wf(),
        ensures
            kind == self@.kind(token),
    {
        if token == OUTGOING {
            TokenKind::Outgoing
        } else if self.is_incoming_token(token) {
            TokenKind::Listener
        } else {
            TokenKind::Connection
        }
    }

    /// Routes a report that `token` is readable: says which socket call the
    /// caller is to make, or why the report is fatal. A connection token
    /// whose connection is no longer live is stale and calls for nothing.
    pub fn readable(&self, token: Token) -> (step: Result<ReadableStep, Fatal>)
        requires
            self.wf(),
        ensures
            step == self@.readable_step(token),
    {
        match self.classify(token) {
            TokenKind::Outgoing => Err(Fatal::ReadableOnOutgoing),
            TokenKind::Listener => {
                if self.incoming.has_listener(token) {
                    Ok(ReadableStep::Accept)
                } else {
                    Err(Fatal::UnknownListener)
                }
            },
            TokenKind::Connection => {
                if self.incoming.is_live(token) {
                    Ok(ReadableStep::Read)
                } else {
                    Ok(ReadableStep::Stale)
                }
            },
        }
    }

    /// Takes in what the accept call on the ready listener `token` returned.
    pub fn accept(&mut self, token: Token, accepted: Option<S>) -> (outcome: Accepted<S>)
        requires
            old(self).wf(),
            old(self)@.incoming.listeners.contains_key(token),
        ensures
            final(self)@ == old(self)@.after_accept(accepted),
            outcome == old(self)@.incoming.accept_outcome(accepted),
            outcome matches Accepted::Registered(registration) ==> old(self)@.incoming.is_lowest_free(
                registration.token,
            ),
            final(self).queue() == old(self).queue(),
            final(self).wf(),
    {
        self.incoming.accept(token, accepted)
    }

    /// Takes in what the read on the connection `token` returned, and arms
    /// the writer if the connection was live.
    pub fn read(&mut self, token: Token, event: ReadEvent) -> (outcome: ReadOutcome)
        requires
            old(self).wf(),
        ensures
            final(self)@ == old(self)@.after_read(token, event),
            outcome == old(self)@.incoming.read_outcome(token, event),
            final(self).wf(),
    {
        self.incoming.readable(&mut self.outgoing, token, event)
    }

    /// Handles a report that `token` is writable. For the armed outbound
    /// socket it hands over every pending payload, oldest first, for the
    /// caller to send, and disarms the writer. Any other report is fatal and
    /// changes nothing.
    pub fn writable(&mut self, token: Token) -> (result: Result<Vec<Bytes>, Fatal>)
        requires
            old(self).wf(),
        ensures
            match result {
                Ok(drained) => {
                    &&& old(self)@.writable_fault(token) is None
                    &&& drained@ == old(self).queue()
                    &&& payloads(drained@) == old(self)@.incoming.pending
                    &&& final(self)@ == old(self)@.after_writable()
                },
                Err(fatal) => {
                    &&& old(self)@.writable_fault(token) == Some(fatal)
                    &&& final(self)@ == old(self)@
                    &&& final(self).queue() == old(self).queue()
                },
            },
            final(self).wf(),
    {
        if token != OUTGOING {
            return Err(Fatal::WritableOnIncoming);
        }
        if !self.outgoing.armed {
            return Err(Fatal::NotArmed);
        }
        Ok(self.outgoing.writable(&mut self.incoming))
    }

    /// Arms the writer; the caller hands the registration to the reactor.
    pub fn rearm(&mut self) -> (registration: Registration)
        requires
            old(self).wf(),
        ensures
            registration == writer_registration(),
            final(self)@ == old(self)@.after_rearm(),
            final(self).queue() == old(self).queue(),
            final(self).wf(),
    {
        self.outgoing.reregister()
    }

    /// The listener under `token`, to accept from.
    pub fn listener(&self, token: Token) -> (found: Option<&L>)
        ensures
            match found {
                Some(listener) => self@.incoming.listeners.contains_key(token) && *listener
                    == self@.incoming.listeners[token],
                None => !self@.incoming.listeners.contains_key(token),
            },
    {
        self.incoming.listener(token)
    }

    /// The socket of the live connection under `token`, to read from.
    pub fn mut_socket(&mut self, token: Token) -> (found: Option<&mut S>)
        requires
            old(self).wf(),
        ensures
            match found {
                Some(socket) => {
                    &&& old(self)@.incoming.streams.contains_key(token)
                    &&& *socket == old(self)@.incoming.streams[token]
                    &&& final(self)@ =~= (ForwarderState {
                        incoming: old(self)@.incoming.with_connection(token, *final(socket)),
                        ..old(self)@
                    })
                },
                None => !old(self)@.incoming.streams.contains_key(token) && final(self)@ =~= old(
                    self,
                )@,
            },
            final(self).queue() == old(self).queue(),
            final(self).wf(),
    {
        self.incoming.mut_socket(token)
    }

    /// The outgoing side: the socket to send from and the address to send to.
    pub fn outgoing(&self) -> (outgoing: &Outgoing<U, A>)
        ensures
            *outgoing == self@.outgoing,
    {
        &self.outgoing
    }

    /// The incoming side.
    pub fn incoming(&self) -> (incoming: &Incoming<L, S>)
        ensures
            incoming@ == self@.incoming,
            incoming.queue() == self.queue(),
            self.wf() ==> incoming.wf(),
    {
        &self.incoming
    }
}

} // verus!
