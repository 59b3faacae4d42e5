//! The outgoing side: the one outbound socket, where it sends to, and
//! whether the reactor has been asked to report it writable.
//!
//! Write readiness is requested one report at a time. The outbound socket is
//! writable nearly always, so a standing interest would wake the loop without
//! end; instead each handled read asks for one more report.

use vstd::prelude::*;
use bytes::Bytes;
use crate::incoming::payloads;
use crate::incoming::Incoming;
use crate::incoming::IncomingState;
use crate::token::writer_registration;
use crate::token::Interest;
use crate::token::Registration;
use crate::token::Trigger;
use crate::token::OUTGOING;

verus! {

/// The outbound socket of type `U`, its destination of type `A`, and the
/// state of its one-shot registration.
pub struct Outgoing<U, A> {
    pub socket: U,
    pub addr: A,
    /// Whether a report of write readiness has been requested and not yet
    /// used up.
    pub armed: bool,
}

impl<U, A> Outgoing<U, A> {
    /// An outgoing side that sends from `socket` to `addr`. It starts
    /// disarmed: no report of write readiness has been requested yet.
    pub fn new(socket: U, addr: A) -> (outgoing: Outgoing<U, A>)
        ensures
            outgoing.socket == socket,
            outgoing.addr == addr,
            !outgoing.armed,
    {
        Outgoing { socket: socket, addr: addr, armed: false }
    }

    /// Handles a report that the outbound socket is writable: takes every
    /// pending payload out of the queue, oldest first, for the caller to
    /// send. The report uses up the registration, so the writer is disarmed
    /// afterwards, whether or not anything was pending.
    pub fn writable<L, S>(&mut self, incoming: &mut Incoming<L, S>) -> (drained: Vec<Bytes>)
        requires
            old(incoming).wf(),
        ensures
            drained@ == old(incoming).queue(),
            payloads(drained@) == old(incoming)@.pending,
            final(incoming).wf(),
            final(incoming)@ == old(incoming)@.drained(),
            final(incoming).queue() == Seq::<Bytes>::empty(),
            !final(self).armed,
            final(self).socket == old(self).socket,
            final(self).addr == old(self).addr,
    {
        let mut drained: Vec<Bytes> = Vec::new();
        while incoming.message_queue().len() > 0
            invariant
                incoming.wf(),
                drained@ + incoming.queue() == old(incoming).queue(),
                incoming@ == (IncomingState {
                    pending: payloads(incoming.queue()),
                    ..old(incoming)@
                }),
            decreases incoming.queue().len(),
        {
            let front = incoming.mut_message_queue().pop_front();
            match front {
                Some(payload) => {
                    drained.push(payload);
                },
                None => {},
            }
        }
        self.armed = false;
        proof {
            assert(incoming.queue() =~= Seq::<Bytes>::empty());
            assert(drained@ =~= old(incoming).queue());
            assert(incoming@.pending =~= Seq::<Seq<u8>>::empty());
        }
        drained
    }

    /// Arms the writer: returns the one-shot registration for write
    /// readiness that the caller hands to the reactor.
    pub fn reregister(&mut self) -> (registration: Registration)
        ensures
            registration == writer_registration(),
            final(self).armed,
            final(self).socket == old(self).socket,
            final(self).addr == old(self).addr,
    {
        self.armed = true;
        Registration {
            token: OUTGOING,
            interest: Interest { readable: false, writable: true, hangup: false },
            trigger: Trigger::OneShot,
        }
    }
}

} // verus!
