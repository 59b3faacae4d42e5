//! Readiness tokens and what the reactor is asked to watch.

use vstd::prelude::*;

verus! {

/// An integer that names one registered resource to the reactor. For a
/// connection it is also the number of its slot.
pub type Token = usize;

/// The token of the one outbound resource.
pub const OUTGOING: Token = 0;

/// How often the reactor reports a readiness condition.
#[derive(Clone, Copy, Debug, PartialEq, Eq, Structural)]
pub enum Trigger {
    /// Reported on every poll for as long as the condition holds.
    Level,
    /// Reported once; silent afterwards until the interest is requested again.
    OneShot,
}

/// The conditions a registration asks to be told about.
#[derive(Clone, Copy, Debug, PartialEq, Eq, Structural)]
pub struct Interest {
    pub readable: bool,
    pub writable: bool,
    pub hangup: bool,
}

/// A request to the reactor: watch the resource behind `token` for
/// `interest`, reporting as `trigger` says.
#[derive(Clone, Copy, Debug, PartialEq, Eq, Structural)]
pub struct Registration {
    pub token: Token,
    pub interest: Interest,
    pub trigger: Trigger,
}

/// The registration of a connection: told of readable data and of the peer
/// hanging up, on every poll for as long as either holds.
pub open spec fn connection_registration(token: Token) -> Registration {
    Registration {
        token,
        interest: Interest { readable: true, writable: false, hangup: true },
        trigger: Trigger::Level,
    }
}

/// The registration that arms the outbound writer: the outbound token, write
/// readiness only, reported once.
pub open spec fn writer_registration() -> Registration {
    Registration {
        token: OUTGOING,
        interest: Interest { readable: false, writable: true, hangup: false },
        trigger: Trigger::OneShot,
    }
}

} // verus!
