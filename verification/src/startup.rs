//! What is settled once, before the first poll: which paths to listen on and
//! which token each listener gets.

use vstd::prelude::*;
use std::collections::HashMap;
use crate::token::Token;

verus! {

broadcast use vstd::std_specs::hash::group_hash_axioms;

/// The path to listen on when none is given.
pub const DEFAULT_SOCKET_PATH: &'static str = "/dev/log";

/// The paths to listen on: the given ones, or the default path alone if
/// none was given.
pub fn socket_paths(given: Vec<String>) -> (paths: Vec<String>)
    ensures
        given@.len() > 0 ==> paths == given,
        given@.len() == 0 ==> paths@.len() == 1 && paths@[0]@ == DEFAULT_SOCKET_PATH@,
{
    let mut paths = given;
    if paths.len() == 0 {
        paths.push(DEFAULT_SOCKET_PATH.to_owned());
    }
    paths
}

/// Gives each listener its token, in the order given: the first listener
/// gets 1, the next 2, and so on; 0 stays with the outbound socket.
pub fn assign_listener_tokens<L>(listeners: Vec<L>) -> (sockets: HashMap<Token, L>)
    ensures
        forall|t: Token| #[trigger] sockets@.contains_key(t) <==> 1 <= t <= listeners@.len(),
        forall|t: Token| 1 <= t <= listeners@.len() ==> #[trigger] sockets@[t] == listeners@[t - 1],
{
    let mut remaining = listeners;
    let mut sockets: HashMap<Token, L> = HashMap::new();
    while remaining.len() > 0
        invariant
            remaining@.len() <= listeners@.len(),
            forall|i: int| 0 <= i < remaining@.len() ==> #[trigger] remaining@[i] == listeners@[i],
            forall|t: Token| #[trigger]
                sockets@.contains_key(t) <==> remaining@.len() < t <= listeners@.len(),
            forall|t: Token|
                remaining@.len() < t <= listeners@.len() ==> #[trigger] sockets@[t] == listeners@[t
                    - 1],
        decreases remaining@.len(),
    {
        let token: Token = remaining.len();
        let listener = remaining.pop();
        match listener {
            Some(listener) => {
                sockets.insert(token, listener);
            },
            None => {},
        }
    }
    sockets
}

/// The paths of the listening endpoints, kept so that whoever ends the
/// process can unlink them.
pub struct SocketPaths {
    paths: Vec<String>,
}

impl View for SocketPaths {
    type V = Seq<String>;

    /// The recorded paths, in the order they were given.
    closed spec fn view(&self) -> Seq<String> {
        self.paths@
    }
}

impl SocketPaths {
    /// A registry with no path recorded.
    pub fn new() -> (registry: SocketPaths)
        ensures
            registry@ == Seq::<String>::empty(),
    {
        SocketPaths { paths: Vec::new() }
    }

    /// Records `paths` in place of whatever was recorded before.
    pub fn set_socket_paths(&mut self, paths: &[String])
        ensures
            final(self)@ == paths@,
    {
        let mut copy: Vec<String> = Vec::new();
        let mut i: usize = 0;
        while i < paths.len()
            invariant
                i <= paths@.len(),
                copy@ == paths@.take(i as int),
            decreases paths@.len() - i,
        {
            copy.push(paths[i].clone());
            i = i + 1;
        }
        self.paths = copy;
    }

    /// A copy of the recorded paths.
    pub fn get_socket_paths(&self) -> (paths: Vec<String>)
        ensures
            paths@ == self@,
    {
        let mut copy: Vec<String> = Vec::new();
        let mut i: usize = 0;
        while i < self.paths.len()
            invariant
                i <= self.paths@.len(),
                copy@ == self.paths@.take(i as int),
            decreases self.paths@.len() - i,
        {
            copy.push(self.paths[i].clone());
            i = i + 1;
        }
        copy
    }
}

} // verus!
