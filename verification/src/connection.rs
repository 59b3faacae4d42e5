//! One accepted peer: its socket and the token it is registered under.

use vstd::prelude::*;
use crate::token::Token;

verus! {

/// An accepted client socket together with its readiness token. The socket
/// type `S` is the caller's; the connection owns it and gives it up only by
/// being dropped.
pub struct Connection<S> {
    socket: S,
    token: Token,
}

impl<S> Connection<S> {
    /// The socket this connection wraps.
    pub closed spec fn socket_value(&self) -> S {
        self.socket
    }

    /// The token this connection carries.
    pub closed spec fn token_value(&self) -> Token {
        self.token
    }

    /// Wraps an accepted socket. Until a token is assigned the connection
    /// carries the placeholder 0.
    pub fn new(socket: S) -> (connection: Connection<S>)
        ensures
            connection.socket_value() == socket,
            connection.token_value() == 0,
    {
        Connection { socket: socket, token: 0 }
    }

    /// The wrapped socket.
    pub fn socket(&self) -> (socket: &S)
        ensures
            *socket == self.socket_value(),
    {
        &self.socket
    }

    /// The wrapped socket, for a call that needs it mutably. The token stays.
    pub fn mut_socket(&mut self) -> (socket: &mut S)
        ensures
            *socket == old(self).socket_value(),
            final(self).socket_value() == *final(socket),
            final(self).token_value() == old(self).token_value(),
    {
        &mut self.socket
    }

    /// Binds the token the table handed out for this connection.
    pub fn update_token(&mut self, token: Token)
        ensures
            final(self).token_value() == token,
            final(self).socket_value() == old(self).socket_value(),
    {
        self.token = token;
    }

    /// Gives up the wrapped socket.
    pub fn into_socket(self) -> (socket: S)
        ensures
            socket == self.socket_value(),
    {
        self.socket
    }

    /// The token this connection is registered under.
    pub fn token(&self) -> (token: Token)
        ensures
            token == self.token_value(),
    {
        self.token
    }
}

} // verus!
