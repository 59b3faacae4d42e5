//! The slot table of live connections.
//!
//! Connection tokens start at a fixed base; slot `i` of the table answers to
//! token `base + i`. A new connection takes the lowest token that is free, so
//! a released token is handed out again before the table grows.

use vstd::prelude::*;
use crate::connection::Connection;
use crate::token::Token;

verus! {

/// A bounded table from tokens to the connections that own them.
pub struct ConnectionTable<S> {
    slots: Vec<Option<Connection<S>>>,
    base: Token,
    capacity: usize,
    /// The lowest slot that is empty, or the number of slots if none is.
    first_free: usize,
}

impl<S> View for ConnectionTable<S> {
    type V = Map<Token, Connection<S>>;

    /// The live connections, each under its token.
    closed spec fn view(&self) -> Map<Token, Connection<S>> {
        Map::new(
            |t: Token| self.base <= t < self.base + self.slots@.len() && self.slots@[t - self.base] is Some,
            |t: Token| self.slots@[t - self.base]->0,
        )
    }
}

impl<S> ConnectionTable<S> {
    /// The token of the first slot.
    pub closed spec fn base(&self) -> Token {
        self.base
    }

    /// The number of connections the table can hold.
    pub closed spec fn capacity(&self) -> usize {
        self.capacity
    }

    /// What the fields promise each other.
    pub closed spec fn slots_consistent(&self) -> bool {
        &&& self.slots@.len() <= self.capacity
        &&& self.first_free <= self.slots@.len()
        &&& forall|i: int| 0 <= i < self.first_free ==> (#[trigger] self.slots@[i]) is Some
        &&& self.first_free < self.slots@.len() ==> self.slots@[self.first_free as int] is None
    }

    /// A well-formed table: every token it can hand out fits in a `usize`,
    /// and every live token lies in `[base, base + capacity)`.
    pub open spec fn wf(&self) -> bool {
        &&& self.slots_consistent()
        &&& self.base() + self.capacity() <= usize::MAX
        &&& forall|t: Token| #[trigger]
            self@.contains_key(t) ==> self.base() <= t < self.base() + self.capacity()
    }

    /// `t` is the token the next insertion takes: it is free, and every
    /// token of the table below it is live.
    pub open spec fn is_lowest_free(&self, t: Token) -> bool {
        &&& self.base() <= t
        &&& !self@.contains_key(t)
        &&& forall|u: Token| self.base() <= u < t ==> #[trigger] self@.contains_key(u)
    }

    /// No token of the table is free.
    pub open spec fn is_full(&self) -> bool {
        forall|t: Token|
            self.base() <= t < self.base() + self.capacity() ==> #[trigger] self@.contains_key(t)
    }

    /// An empty table whose tokens are `start`, `start + 1`, ... up to
    /// `capacity` of them.
    pub fn new_starting_at(start: Token, capacity: usize) -> (table: ConnectionTable<S>)
        requires
            start + capacity <= usize::MAX,
        ensures
            table.wf(),
            table.base() == start,
            table.capacity() == capacity,
            table@ == Map::<Token, Connection<S>>::empty(),
    {
        let table = ConnectionTable { slots: Vec::new(), base: start, capacity, first_free: 0 };
        assert(table@ =~= Map::<Token, Connection<S>>::empty());
        table
    }

    /// Whether `token` denotes a live connection.
    pub fn contains(&self, token: Token) -> (live: bool)
        requires
            self.wf(),
        ensures
            live == self@.contains_key(token),
    {
        if token < self.base {
            return false;
        }
        let index: usize = token - self.base;
        index < self.slots.len() && self.slots[index].is_some()
    }

    /// Puts `connection` into the lowest free slot and returns that slot's
    /// token. A full table hands the connection back and stays as it was.
    pub fn insert(&mut self, connection: Connection<S>) -> (result: Result<Token, Connection<S>>)
        requires
            old(self).wf(),
        ensures
            final(self).wf(),
            final(self).base() == old(self).base(),
            final(self).capacity() == old(self).capacity(),
            match result {
                Ok(token) => {
                    &&& old(self).is_lowest_free(token)
                    &&& token < old(self).base() + old(self).capacity()
                    &&& final(self)@ == old(self)@.insert(token, connection)
                },
                Err(back) => {
                    &&& old(self).is_full()
                    &&& back == connection
                    &&& final(self)@ == old(self)@
                },
            },
    {
        let index: usize = self.first_free;
        if index == self.slots.len() {
            if index == self.capacity {
                assert forall|t: Token|
                    self.base() <= t < self.base() + self.capacity() implies #[trigger] self@.contains_key(t) by {
                    assert(self.slots@[t - self.base] is Some);
                }
                return Err(connection);
            }
            self.slots.push(Some(connection));
            self.first_free = index + 1;
        } else {
            self.slots.set(index, Some(connection));
            let mut next: usize = index + 1;
            while next < self.slots.len() && self.slots[next].is_some()
                invariant
                    index < next <= self.slots@.len(),
                    forall|i: int| 0 <= i < next ==> (#[trigger] self.slots@[i]) is Some,
                decreases self.slots@.len() - next,
            {
                next = next + 1;
            }
            self.first_free = next;
        }
        let token: Token = self.base + index;
        proof {
            assert forall|u: Token| old(self).base() <= u < token implies #[trigger] old(self)@.contains_key(u) by {
                assert(old(self).slots@[u - old(self).base] is Some);
            }
            assert(self@ =~= old(self)@.insert(token, connection));
        }
        Ok(token)
    }

    /// Takes the connection under `token` out of the table, if there is one.
    /// Its slot is free from then on.
    pub fn remove(&mut self, token: Token) -> (removed: Option<Connection<S>>)
        requires
            old(self).wf(),
        ensures
            final(self).wf(),
            final(self).base() == old(self).base(),
            final(self).capacity() == old(self).capacity(),
            final(self)@ == old(self)@.remove(token),
            removed == (if old(self)@.contains_key(token) {
                Some(old(self)@[token])
            } else {
                None
            }),
    {
        if token < self.base {
            assert(self@ =~= old(self)@.remove(token));
            return None;
        }
        let index: usize = token - self.base;
        if index >= self.slots.len() {
            assert(self@ =~= old(self)@.remove(token));
            return None;
        }
        let removed = self.slots[index].take();
        if index < self.first_free {
            self.first_free = index;
        }
        assert(self@ =~= old(self)@.remove(token));
        removed
    }

    /// The connection under `token`, if it is live.
    pub fn get(&self, token: Token) -> (found: Option<&Connection<S>>)
        requires
            self.wf(),
        ensures
            match found {
                Some(connection) => self@.contains_key(token) && *connection == self@[token],
                None => !self@.contains_key(token),
            },
    {
        if token < self.base {
            return None;
        }
        let index: usize = token - self.base;
        if index >= self.slots.len() {
            return None;
        }
        self.slots[index].as_ref()
    }

    /// The connection under `token`, if it is live, for changing in place.
    /// Whatever the caller leaves there stays under the same token.
    pub fn get_mut(&mut self, token: Token) -> (found: Option<&mut Connection<S>>)
        requires
            old(self).wf(),
        ensures
            final(self).wf(),
            final(self).base() == old(self).base(),
            final(self).capacity() == old(self).capacity(),
            match found {
                Some(connection) => {
                    &&& old(self)@.contains_key(token)
                    &&& *connection == old(self)@[token]
                    &&& final(self)@ == old(self)@.insert(token, *final(connection))
                },
                None => !old(self)@.contains_key(token) && final(self)@ == old(self)@,
            },
    {
        if token < self.base {
            return None;
        }
        let index: usize = token - self.base;
        if index >= self.slots.len() {
            return None;
        }
        self.slots[index].as_mut()
    }
}

} // verus!
