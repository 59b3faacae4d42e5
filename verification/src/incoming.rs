//! The incoming side: listeners, the connections accepted from them, and the
//! messages read from those connections that wait to be sent on.
//!
//! The caller performs the socket calls. It accepts from a ready listener and
//! reports what came of it to [`Incoming::accept`]; it reads once from a ready
//! connection into a buffer from [`read_buffer`](crate::payload::read_buffer)
//! and reports the result to [`Incoming::readable`].

use vstd::prelude::*;
use std::collections::HashMap;
use std::collections::VecDeque;
use bytes::Bytes;
use bytes::BytesMut;
use crate::connection::Connection;
use crate::outgoing::Outgoing;
use crate::payload::buffer_bytes;
use crate::payload::filled;
use crate::payload::filled_prefix;
use crate::payload::payload_bytes;
use crate::table::ConnectionTable;
use crate::token::connection_registration;
use crate::token::writer_registration;
use crate::token::Interest;
use crate::token::Registration;
use crate::token::Token;
use crate::token::Trigger;

verus! {

broadcast use vstd::std_specs::hash::group_hash_axioms;

/// The number of connections that can be live at one time.
pub const MAX_CONNECTIONS: usize = 128;

/// What one read on a connection's socket came to.
pub enum ReadEvent {
    /// The read returned; the count is the number of bytes it put at the
    /// front of the buffer. A count of zero means the peer has closed.
    Read(BytesMut, usize),
    /// Nothing could be read without blocking.
    WouldBlock,
    /// The read failed for another reason.
    Failed,
}

/// What [`Incoming::accept`] did with the result of an accept call.
pub enum Accepted<S> {
    /// A connection was admitted. Its socket is to be registered as given.
    Registered(Registration),
    /// No connection was waiting; nothing changed.
    Spurious,
    /// Every slot is taken. The socket comes back and nothing changed.
    Exhausted(S),
}

/// What a handled read did.
#[derive(Clone, Copy, Debug, PartialEq, Eq, Structural)]
pub enum ReadKind {
    /// The peer had closed; the connection was removed and its socket dropped.
    Closed,
    /// The bytes read were queued as one message.
    Queued,
    /// The read would have blocked; nothing changed.
    Idle,
    /// The read failed; the connection stays as it is.
    Failed,
}

/// What [`Incoming::readable`] did with the result of a read.
#[derive(Clone, Copy, Debug, PartialEq, Eq, Structural)]
pub enum ReadOutcome {
    /// The token denotes no live connection; nothing changed.
    Stale,
    /// The read was handled, and the outbound writer was armed again: the
    /// registration is to be handed to the reactor.
    Handled(ReadKind, Registration),
}

/// The bytes of each payload of a queue, in queue order.
pub open spec fn payloads(queue: Seq<Bytes>) -> Seq<Seq<u8>> {
    queue.map_values(|payload: Bytes| payload_bytes(payload))
}

/// The incoming side as a mathematical value.
#[verifier::ext_equal]
pub struct IncomingState<L, S> {
    /// The listening endpoints, each under its token.
    pub listeners: Map<Token, L>,
    /// The first connection token.
    pub first: Token,
    /// The number of connection tokens.
    pub capacity: usize,
    /// The sockets of the live connections, each under its token.
    pub streams: Map<Token, S>,
    /// The messages waiting to be sent, oldest first.
    pub pending: Seq<Seq<u8>>,
}

impl<L, S> IncomingState<L, S> {
    /// Listener tokens lie in `[1, first)`, live connection tokens in
    /// `[first, first + capacity)`, and all of them fit in a `usize`.
    pub open spec fn wf(self) -> bool {
        &&& 1 <= self.first
        &&& self.first + self.capacity <= usize::MAX
        &&& forall|t: Token| #[trigger] self.listeners.contains_key(t) ==> 1 <= t < self.first
        &&& forall|t: Token| #[trigger]
            self.streams.contains_key(t) ==> self.first <= t < self.first + self.capacity
    }

    /// `t` is the lowest connection token that is free.
    pub open spec fn is_lowest_free(self, t: Token) -> bool {
        &&& self.first <= t
        &&& !self.streams.contains_key(t)
        &&& forall|u: Token| self.first <= u < t ==> #[trigger] self.streams.contains_key(u)
    }

    /// Every connection token is taken.
    pub open spec fn is_full(self) -> bool {
        forall|t: Token|
            self.first <= t < self.first + self.capacity ==> #[trigger] self.streams.contains_key(t)
    }

    /// The lowest connection token that is free, where one is.
    pub open spec fn lowest_free(self) -> Token {
        choose|t: Token| self.is_lowest_free(t)
    }

    /// The state after `socket` was admitted under `token`.
    pub open spec fn with_connection(self, token: Token, socket: S) -> Self {
        IncomingState { streams: self.streams.insert(token, socket), ..self }
    }

    /// The state after the connection under `token` was removed.
    pub open spec fn without_connection(self, token: Token) -> Self {
        IncomingState { streams: self.streams.remove(token), ..self }
    }

    /// The state after `payload` joined the end of the queue.
    pub open spec fn with_message(self, payload: Seq<u8>) -> Self {
        IncomingState { pending: self.pending.push(payload), ..self }
    }

    /// The state after the queue was emptied.
    pub open spec fn drained(self) -> Self {
        IncomingState { pending: Seq::empty(), ..self }
    }

    /// The state after the result of an accept call was handled: a socket
    /// is admitted under the lowest free token, unless every token is taken.
    pub open spec fn after_accept(self, accepted: Option<S>) -> Self {
        match accepted {
            Some(socket) => if self.is_full() {
                self
            } else {
                self.with_connection(self.lowest_free(), socket)
            },
            None => self,
        }
    }

    /// What handling the result of an accept call reports.
    pub open spec fn accept_outcome(self, accepted: Option<S>) -> Accepted<S> {
        match accepted {
            Some(socket) => if self.is_full() {
                Accepted::Exhausted(socket)
            } else {
                Accepted::Registered(connection_registration(self.lowest_free()))
            },
            None => Accepted::Spurious,
        }
    }

    /// What handling the read `event` on `token` reports.
    pub open spec fn read_outcome(self, token: Token, event: ReadEvent) -> ReadOutcome {
        if self.streams.contains_key(token) {
            ReadOutcome::Handled(read_kind(event), writer_registration())
        } else {
            ReadOutcome::Stale
        }
    }

    /// Below any free token there is a lowest free one.
    proof fn lemma_lowest_free_below(self, t: Token)
        requires
            self.first <= t,
            !self.streams.contains_key(t),
        ensures
            exists|u: Token| u <= t && self.is_lowest_free(u),
        decreases t,
    {
        if forall|u: Token| self.first <= u < t ==> #[trigger] self.streams.contains_key(u) {
            assert(self.is_lowest_free(t));
        } else {
            let u = choose|u: Token| self.first <= u < t && !self.streams.contains_key(u);
            self.lemma_lowest_free_below(u);
        }
    }

    /// Unless every token is taken, exactly one token is the lowest free
    /// one, and it lies within the connection range.
    pub proof fn lemma_lowest_free(self)
        requires
            !self.is_full(),
        ensures
            self.is_lowest_free(self.lowest_free()),
            self.lowest_free() < self.first + self.capacity,
            forall|t: Token| self.is_lowest_free(t) ==> t == self.lowest_free(),
    {
        let free = choose|t: Token|
            self.first <= t < self.first + self.capacity && !self.streams.contains_key(t);
        self.lemma_lowest_free_below(free);
        let lowest = self.lowest_free();
        assert(lowest <= free) by {
            if free < lowest {
                assert(self.streams.contains_key(free));
            }
        }
        assert forall|t: Token| self.is_lowest_free(t) implies t == lowest by {
            if t < lowest {
                assert(self.streams.contains_key(t));
            }
            if lowest < t {
                assert(self.streams.contains_key(lowest));
            }
        }
    }

    /// The state after the read `event` on `token` was handled: a stale
    /// token, a read that would block and a failed read change nothing; a
    /// read of zero bytes removes the connection; any other read queues the
    /// filled front of its buffer.
    pub open spec fn after_read(self, token: Token, event: ReadEvent) -> Self {
        if !self.streams.contains_key(token) {
            self
        } else {
            match event {
                ReadEvent::Read(buffer, count) => if count == 0 {
                    self.without_connection(token)
                } else {
                    self.with_message(filled(buffer_bytes(buffer), count))
                },
                ReadEvent::WouldBlock => self,
                ReadEvent::Failed => self,
            }
        }
    }
}

/// What a handled read is called.
pub open spec fn read_kind(event: ReadEvent) -> ReadKind {
    match event {
        ReadEvent::Read(_, count) => if count == 0 {
            ReadKind::Closed
        } else {
            ReadKind::Queued
        },
        ReadEvent::WouldBlock => ReadKind::Idle,
        ReadEvent::Failed => ReadKind::Failed,
    }
}

/// The listeners, the table of connections and the queue of pending messages.
pub struct Incoming<L, S> {
    sockets: HashMap<Token, L>,
    connections: ConnectionTable<S>,
    message_queue: VecDeque<Bytes>,
}

impl<L, S> View for Incoming<L, S> {
    type V = IncomingState<L, S>;

    closed spec fn view(&self) -> IncomingState<L, S> {
        IncomingState {
            listeners: self.sockets@,
            first: self.connections.base(),
            capacity: self.connections.capacity(),
            streams: Map::new(
                |t: Token| self.connections@.contains_key(t),
                |t: Token| self.connections@[t].socket_value(),
            ),
            pending: payloads(self.message_queue@),
        }
    }
}

impl<L, S> Incoming<L, S> {
    /// The table is sound, and every connection in it carries the token it
    /// is stored under.
    pub closed spec fn tokens_assigned(&self) -> bool {
        &&& self.connections.wf()
        &&& forall|t: Token| #[trigger]
            self.connections@.contains_key(t) ==> self.connections@[t].token_value() == t
    }

    /// A well-formed incoming side. Its pending messages are the contents
    /// of its queue.
    pub open spec fn wf(&self) -> bool {
        &&& self.tokens_assigned()
        &&& self@.wf()
        &&& self@.pending == payloads(self.queue())
    }

    /// The queue of pending payloads as it is stored.
    pub closed spec fn queue(&self) -> Seq<Bytes> {
        self.message_queue@
    }

    /// An incoming side with the given listeners and no connections; the
    /// first connection will get the token `token_start`.
    pub fn new(sockets: HashMap<Token, L>, token_start: usize) -> (incoming: Incoming<L, S>)
        requires
            forall|t: Token| #[trigger] sockets@.contains_key(t) ==> 1 <= t < token_start,
            1 <= token_start,
            token_start + MAX_CONNECTIONS <= usize::MAX,
        ensures
            incoming.wf(),
            incoming@ == (IncomingState::<L, S> {
                listeners: sockets@,
                first: token_start,
                capacity: MAX_CONNECTIONS,
                streams: Map::empty(),
                pending: Seq::empty(),
            }),
            incoming.queue() == Seq::<Bytes>::empty(),
    {
        let incoming = Incoming {
            sockets: sockets,
            connections: ConnectionTable::new_starting_at(token_start, MAX_CONNECTIONS),
            message_queue: VecDeque::new(),
        };
        proof {
            assert(incoming@.streams =~= Map::<Token, S>::empty());
            assert(incoming@.pending =~= Seq::<Seq<u8>>::empty());
        }
        incoming
    }

    /// Whether `token` denotes a listener.
    pub fn has_listener(&self, token: Token) -> (found: bool)
        ensures
            found == self@.listeners.contains_key(token),
    {
        self.sockets.contains_key(&token)
    }

    /// The listener under `token`, to accept from.
    pub fn listener(&self, token: Token) -> (found: Option<&L>)
        ensures
            match found {
                Some(listener) => self@.listeners.contains_key(token) && *listener
                    == self@.listeners[token],
                None => !self@.listeners.contains_key(token),
            },
    {
        self.sockets.get(&token)
    }

    /// Whether `token` denotes a live connection.
    pub fn is_live(&self, token: Token) -> (live: bool)
        requires
            self.wf(),
        ensures
            live == self@.streams.contains_key(token),
    {
        self.connections.contains(token)
    }

    /// The live connection under `token`. It carries the token it is stored
    /// under.
    pub fn connection(&self, token: Token) -> (found: Option<&Connection<S>>)
        requires
            self.wf(),
        ensures
            match found {
                Some(connection) => {
                    &&& self@.streams.contains_key(token)
                    &&& connection.socket_value() == self@.streams[token]
                    &&& connection.token_value() == token
                },
                None => !self@.streams.contains_key(token),
            },
    {
        self.connections.get(token)
    }

    /// The socket of the live connection under `token`.
    pub fn socket(&self, token: Token) -> (found: Option<&S>)
        requires
            self.wf(),
        ensures
            match found {
                Some(socket) => self@.streams.contains_key(token) && *socket
                    == self@.streams[token],
                None => !self@.streams.contains_key(token),
            },
    {
        match self.connections.get(token) {
            Some(connection) => Some(connection.socket()),
            None => None,
        }
    }

    /// The socket of the live connection under `token`, to read from. The
    /// connection keeps its token and its place.
    pub fn mut_socket(&mut self, token: Token) -> (found: Option<&mut S>)
        requires
            old(self).wf(),
        ensures
            match found {
                Some(socket) => {
                    &&& old(self)@.streams.contains_key(token)
                    &&& *socket == old(self)@.streams[token]
                    &&& final(self)@ =~= old(self)@.with_connection(token, *final(socket))
                },
                None => !old(self)@.streams.contains_key(token) && final(self)@ =~= old(self)@,
            },
            final(self).queue() == old(self).queue(),
            final(self).wf(),
    {
        match self.connections.get_mut(token) {
            Some(connection) => {
                Some(connection.mut_socket())
            },
            None => None,
        }
    }

    /// Handles what an accept call on the ready listener `token` returned.
    ///
    /// Without a socket the wakeup was spurious and nothing changes. A
    /// socket becomes a connection in the lowest free slot, carries that
    /// slot's token, and is to be registered for readable data and hang-up,
    /// level-triggered. If every slot is taken the socket comes back.
    pub fn accept(&mut self, token: Token, accepted: Option<S>) -> (outcome: Accepted<S>)
        requires
            old(self).wf(),
            old(self)@.listeners.contains_key(token),
        ensures
            final(self)@ == old(self)@.after_accept(accepted),
            outcome == old(self)@.accept_outcome(accepted),
            outcome matches Accepted::Registered(registration) ==> old(self)@.is_lowest_free(
                registration.token,
            ),
            final(self).queue() == old(self).queue(),
            final(self).wf(),
    {
        proof {
            if !self@.is_full() {
                self@.lemma_lowest_free();
            }
        }
        let socket = match accepted {
            Some(socket) => socket,
            None => {
                return Accepted::Spurious;
            },
        };
        let connection = Connection::new(socket);
        proof {
            self.lemma_streams_follow_table();
        }
        let assigned = match self.connections.insert(connection) {
            Ok(assigned) => assigned,
            Err(back) => {
                return Accepted::Exhausted(back.into_socket());
            },
        };
        match self.connections.get_mut(assigned) {
            Some(admitted) => {
                admitted.update_token(assigned);
            },
            None => {},
        }
        proof {
            assert(self@.streams =~= old(self)@.streams.insert(assigned, socket));
        }
        Accepted::Registered(
            Registration {
                token: assigned,
                interest: Interest { readable: true, writable: false, hangup: true },
                trigger: Trigger::Level,
            },
        )
    }

    /// Handles what one read on the connection `token` returned, then arms
    /// the outbound writer again.
    ///
    /// A read of zero bytes removes the connection, which drops its socket
    /// and frees its token. A read of more bytes queues the filled front of
    /// the buffer as one message. A read that would block, and a failed one,
    /// change nothing here. If `token` denotes no live connection the event
    /// is stale: nothing changes and the writer is not armed.
    pub fn readable<U, A>(
        &mut self,
        outgoing: &mut Outgoing<U, A>,
        token: Token,
        event: ReadEvent,
    ) -> (outcome: ReadOutcome)
        requires
            old(self).wf(),
        ensures
            final(self)@ == old(self)@.after_read(token, event),
            outcome == old(self)@.read_outcome(token, event),
            *final(outgoing) == (Outgoing {
                armed: old(outgoing).armed || old(self)@.streams.contains_key(token),
                ..*old(outgoing)
            }),
            final(self).wf(),
    {
        if !self.connections.contains(token) {
            return ReadOutcome::Stale;
        }
        let kind = match event {
            ReadEvent::Read(buffer, count) => {
                if count == 0 {
                    self.connections.remove(token);
                    proof {
                        assert(self@.streams =~= old(self)@.streams.remove(token));
                    }
                    ReadKind::Closed
                } else {
                    let payload = filled_prefix(buffer, count);
                    self.message_queue.push_back(payload);
                    proof {
                        assert(self@.streams =~= old(self)@.streams);
                        assert(self@.pending =~= old(self)@.pending.push(
                            filled(buffer_bytes(buffer), count),
                        ));
                    }
                    ReadKind::Queued
                }
            },
            ReadEvent::WouldBlock => ReadKind::Idle,
            ReadEvent::Failed => ReadKind::Failed,
        };
        let registration = outgoing.reregister();
        assert(self@.listeners == old(self)@.listeners);
        ReadOutcome::Handled(kind, registration)
    }

    /// The queue of pending payloads, for the writer to drain.
    pub fn mut_message_queue(&mut self) -> (queue: &mut VecDeque<Bytes>)
        requires
            old(self).wf(),
        ensures
            queue@ == old(self).queue(),
            final(self).wf(),
            final(self).queue() == final(queue)@,
            final(self)@ == (IncomingState { pending: payloads(final(queue)@), ..old(self)@ }),
    {
        &mut self.message_queue
    }

    /// The queue of pending payloads, oldest first.
    pub fn message_queue(&self) -> (queue: &VecDeque<Bytes>)
        ensures
            queue@ == self.queue(),
            payloads(queue@) == self@.pending,
    {
        &self.message_queue
    }

    /// The sockets in the view are those of the table's connections.
    proof fn lemma_streams_follow_table(&self)
        requires
            self.wf(),
        ensures
            self.connections.is_full() == self@.is_full(),
            forall|t: Token| self.connections.is_lowest_free(t) == self@.is_lowest_free(t),
    {
        assert forall|t: Token| self.connections.is_lowest_free(t) == self@.is_lowest_free(t) by {
            if self.connections.is_lowest_free(t) {
                assert forall|u: Token| self@.first <= u < t implies #[trigger] self@.streams.contains_key(u) by {
                    assert(self.connections@.contains_key(u));
                }
            }
            if self@.is_lowest_free(t) {
                assert forall|u: Token| self.connections.base() <= u < t implies #[trigger] self.connections@.contains_key(u) by {
                    assert(self@.streams.contains_key(u));
                }
            }
        }
        if self.connections.is_full() {
            assert forall|t: Token|
                self@.first <= t < self@.first + self@.capacity implies #[trigger] self@.streams.contains_key(t) by {
                assert(self.connections@.contains_key(t));
            }
        }
        if self@.is_full() {
            assert forall|t: Token|
                self.connections.base() <= t < self.connections.base() + self.connections.capacity() implies #[trigger] self.connections@.contains_key(t) by {
                assert(self@.streams.contains_key(t));
            }
        }
    }
}

} // verus!
