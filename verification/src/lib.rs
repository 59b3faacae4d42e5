//! The event-driven core of a log relay.
//!
//! Messages arrive on local listening endpoints and are handed, in arrival
//! order, to one outbound writer. This crate holds the decisions of that
//! reactor: which resource a readiness token denotes, how connections are
//! admitted to and released from a slot table, what a finished read does to
//! the buffer of pending messages, and when the outbound writer may be
//! notified again. The caller owns the poller and performs the socket calls;
//! every function here says in its contract what it decided.

pub mod connection;
pub mod forwarder;
pub mod incoming;
pub mod outgoing;
pub mod payload;
pub mod startup;
pub mod table;
pub mod token;
pub mod trace;
