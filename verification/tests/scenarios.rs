use std::cell::{Cell, RefCell};
use std::collections::{HashMap, VecDeque};
use std::rc::Rc;

use syslog_forwarder::forwarder::{Fatal, ReadableStep, SyslogForwarder};
use syslog_forwarder::incoming::{Accepted, ReadEvent, ReadKind, ReadOutcome};
use syslog_forwarder::payload::read_buffer;
use syslog_forwarder::startup::assign_listener_tokens;
use syslog_forwarder::token::{Registration, Trigger};

/// What a client has done to its end of a connection.
struct Peer {
    written: VecDeque<Vec<u8>>,
    hung_up: bool,
}

/// The relay's end of a connection. Dropping it releases the socket.
struct Stream {
    peer: Rc<RefCell<Peer>>,
    released: Rc<Cell<bool>>,
}

impl Drop for Stream {
    fn drop(&mut self) {
        self.released.set(true);
    }
}

impl Stream {
    /// One bounded read: the next bytes the peer wrote, cut to the buffer;
    /// zero bytes once the peer has hung up; otherwise nothing to read.
    fn read(&mut self, buffer: &mut [u8]) -> Option<usize> {
        let mut peer = self.peer.borrow_mut();
        match peer.written.pop_front() {
            Some(mut bytes) => {
                let count = bytes.len().min(buffer.len());
                let rest = bytes.split_off(count);
                buffer[..count].copy_from_slice(&bytes);
                if !rest.is_empty() {
                    peer.written.push_front(rest);
                }
                Some(count)
            }
            None if peer.hung_up => Some(0),
            None => None,
        }
    }
}

/// A client's handle on its connection.
struct Client {
    peer: Rc<RefCell<Peer>>,
    released: Rc<Cell<bool>>,
}

impl Client {
    fn write(&self, bytes: &[u8]) {
        self.peer.borrow_mut().written.push_back(bytes.to_vec());
    }

    fn disconnect(&self) {
        self.peer.borrow_mut().hung_up = true;
    }
}

struct Listener {
    path: String,
    backlog: RefCell<VecDeque<Stream>>,
}

/// The outbound socket: it records every datagram sent through it.
struct Wire {
    datagrams: RefCell<Vec<(Vec<u8>, String)>>,
}

/// A relay under a reactor that reports write readiness once per request.
struct Harness {
    relay: SyslogForwarder<Listener, Stream, Wire, String>,
    writer_watched: bool,
    watched: Vec<Registration>,
    deliveries: usize,
}

impl Harness {
    fn new(paths: &[&str]) -> Harness {
        let listeners = paths
            .iter()
            .map(|path| Listener { path: path.to_string(), backlog: RefCell::new(VecDeque::new()) })
            .collect();
        let wire = Wire { datagrams: RefCell::new(Vec::new()) };
        Harness {
            relay: SyslogForwarder::new(
                assign_listener_tokens(listeners),
                wire,
                String::from("192.0.2.1:514"),
            ),
            writer_watched: false,
            watched: Vec::new(),
            deliveries: 0,
        }
    }

    fn connect(&self, listener: usize) -> Client {
        let peer = Rc::new(RefCell::new(Peer { written: VecDeque::new(), hung_up: false }));
        let released = Rc::new(Cell::new(false));
        let stream = Stream { peer: peer.clone(), released: released.clone() };
        self.relay.listener(listener).unwrap().backlog.borrow_mut().push_back(stream);
        Client { peer, released }
    }

    /// Handles a report that `token` is readable the way a caller does: asks
    /// what to do, makes that one socket call, and reports back.
    fn readable(&mut self, token: usize) -> Option<ReadKind> {
        match self.relay.readable(token) {
            Err(fatal) => panic!("fatal: {:?}", fatal),
            Ok(ReadableStep::Stale) => None,
            Ok(ReadableStep::Accept) => {
                let accepted = self.relay.listener(token).unwrap().backlog.borrow_mut().pop_front();
                match self.relay.accept(token, accepted) {
                    Accepted::Registered(registration) => self.watched.push(registration),
                    Accepted::Spurious => {}
                    Accepted::Exhausted(_) => panic!("no free connection slot"),
                }
                None
            }
            Ok(ReadableStep::Read) => {
                let mut buffer = read_buffer();
                let event = match self.relay.mut_socket(token).unwrap().read(&mut buffer[..]) {
                    Some(count) => ReadEvent::Read(buffer, count),
                    None => ReadEvent::WouldBlock,
                };
                match self.relay.read(token, event) {
                    ReadOutcome::Handled(kind, registration) => {
                        assert_eq!(registration.trigger, Trigger::OneShot);
                        assert_eq!(registration.token, 0);
                        self.writer_watched = true;
                        Some(kind)
                    }
                    ReadOutcome::Stale => None,
                }
            }
        }
    }

    /// One poll of the reactor for the writer: reports it writable if a
    /// request is outstanding, and sends whatever the relay hands over.
    fn poll_writer(&mut self) -> bool {
        if !self.writer_watched {
            return false;
        }
        self.writer_watched = false;
        let drained = self.relay.writable(0).ok().unwrap();
        self.deliveries += 1;
        let outgoing = self.relay.outgoing();
        for payload in drained {
            outgoing.socket.datagrams.borrow_mut().push((payload.to_vec(), outgoing.addr.clone()));
        }
        true
    }

    fn sent(&self) -> Vec<Vec<u8>> {
        self.relay.outgoing().socket.datagrams.borrow().iter().map(|(bytes, _)| bytes.clone()).collect()
    }
}

#[test]
fn one_client_one_message_one_datagram() {
    let mut harness = Harness::new(&["/tmp/test.sock"]);
    assert_eq!(harness.relay.listener(1).unwrap().path, "/tmp/test.sock");
    let client = harness.connect(1);
    client.write(b"hello");
    harness.readable(1);
    assert_eq!(harness.watched.len(), 1);
    assert_eq!(harness.watched[0].token, 2);
    assert_eq!(harness.watched[0].trigger, Trigger::Level);
    assert_eq!(harness.readable(2), Some(ReadKind::Queued));
    assert!(harness.poll_writer());
    assert_eq!(harness.sent(), vec![b"hello".to_vec()]);
    let datagrams = harness.relay.outgoing().socket.datagrams.borrow();
    assert_eq!(datagrams.len(), 1);
    assert_eq!(datagrams[0].1, "192.0.2.1:514");
}

#[test]
fn two_clients_two_messages_two_datagrams_in_read_order() {
    let mut harness = Harness::new(&["/tmp/test.sock"]);
    let first = harness.connect(1);
    let second = harness.connect(1);
    first.write(b"from the first");
    second.write(b"from the second");
    harness.readable(1);
    harness.readable(1);
    assert_eq!(harness.readable(3), Some(ReadKind::Queued));
    assert_eq!(harness.readable(2), Some(ReadKind::Queued));
    assert!(harness.sent().is_empty());
    assert!(harness.poll_writer());
    assert_eq!(harness.sent(), vec![b"from the second".to_vec(), b"from the first".to_vec()]);
    assert_eq!(harness.deliveries, 1);
}

#[test]
fn a_client_that_leaves_without_writing_queues_nothing_and_frees_its_token() {
    let mut harness = Harness::new(&["/tmp/test.sock"]);
    let client = harness.connect(1);
    harness.readable(1);
    assert!(!client.released.get());
    client.disconnect();
    assert_eq!(harness.readable(2), Some(ReadKind::Closed));
    assert!(client.released.get());
    assert!(harness.relay.incoming().message_queue().is_empty());
    assert!(!harness.relay.incoming().is_live(2));
    assert!(harness.poll_writer());
    assert!(harness.sent().is_empty());
    let next = harness.connect(1);
    harness.readable(1);
    assert_eq!(harness.watched[1].token, 2);
    assert!(!next.released.get());
}

#[test]
fn accept_with_no_connection_waiting_changes_nothing() {
    let mut harness = Harness::new(&["/tmp/test.sock"]);
    let client = harness.connect(1);
    harness.readable(1);
    assert_eq!(harness.readable(1), None);
    assert_eq!(harness.watched.len(), 1);
    assert!(harness.relay.incoming().is_live(2));
    assert!(!harness.relay.incoming().is_live(3));
    assert!(!harness.writer_watched);
    assert!(!harness.relay.outgoing().armed);
    client.write(b"still here");
    assert_eq!(harness.readable(2), Some(ReadKind::Queued));
}

#[test]
fn n_reads_give_exactly_n_writable_reports() {
    let mut harness = Harness::new(&["/tmp/test.sock"]);
    let client = harness.connect(1);
    harness.readable(1);
    assert!(!harness.poll_writer());
    for round in 0..25usize {
        client.write(format!("message {}", round).as_bytes());
        assert_eq!(harness.readable(2), Some(ReadKind::Queued));
        assert!(harness.poll_writer());
        assert!(!harness.poll_writer());
        assert_eq!(harness.deliveries, round + 1);
    }
    assert_eq!(harness.deliveries, 25);
    assert_eq!(harness.sent().len(), 25);
    assert_eq!(harness.relay.writable(0).err(), Some(Fatal::NotArmed));
}

#[test]
fn several_reads_before_one_poll_give_one_writable_report() {
    let mut harness = Harness::new(&["/tmp/test.sock"]);
    let client = harness.connect(1);
    harness.readable(1);
    for round in 0..5usize {
        client.write(format!("message {}", round).as_bytes());
        harness.readable(2);
    }
    assert!(harness.poll_writer());
    assert!(!harness.poll_writer());
    assert_eq!(harness.deliveries, 1);
    assert_eq!(harness.sent().len(), 5);
}

#[test]
fn a_read_that_would_block_still_asks_for_a_writable_report() {
    let mut harness = Harness::new(&["/tmp/test.sock"]);
    let _client = harness.connect(1);
    harness.readable(1);
    assert_eq!(harness.readable(2), Some(ReadKind::Idle));
    assert!(harness.poll_writer());
    assert!(harness.sent().is_empty());
}

#[test]
fn messages_leave_in_the_order_they_were_read_across_connections() {
    let mut harness = Harness::new(&["/tmp/a.sock", "/tmp/b.sock"]);
    let a = harness.connect(1);
    let b = harness.connect(2);
    let c = harness.connect(1);
    harness.readable(1);
    harness.readable(2);
    harness.readable(1);
    let clients = [&a, &b, &c];
    let mut expected: Vec<Vec<u8>> = Vec::new();
    for round in 0..30usize {
        let which = (round * 7 + round / 3) % 3;
        let message = format!("{} from {}", round, which).into_bytes();
        clients[which].write(&message);
        assert_eq!(harness.readable(3 + which), Some(ReadKind::Queued));
        expected.push(message);
        if round % 11 == 10 {
            assert!(harness.poll_writer());
        }
    }
    assert!(harness.poll_writer());
    assert_eq!(harness.sent(), expected);
}

#[test]
fn a_message_longer_than_one_read_leaves_in_pieces_of_read_size() {
    let mut harness = Harness::new(&["/tmp/test.sock"]);
    let client = harness.connect(1);
    harness.readable(1);
    let long: Vec<u8> = (0..5000usize).map(|place| (place % 256) as u8).collect();
    client.write(&long);
    assert_eq!(harness.readable(2), Some(ReadKind::Queued));
    assert_eq!(harness.readable(2), Some(ReadKind::Queued));
    assert_eq!(harness.readable(2), Some(ReadKind::Queued));
    assert_eq!(harness.readable(2), Some(ReadKind::Idle));
    harness.poll_writer();
    let sent = harness.sent();
    assert_eq!(sent.len(), 3);
    assert_eq!(sent[0], long[..2048].to_vec());
    assert_eq!(sent[1], long[2048..4096].to_vec());
    assert_eq!(sent[2], long[4096..].to_vec());
}

#[test]
fn a_closed_token_is_taken_again_unless_a_lower_one_is_free() {
    let mut harness = Harness::new(&["/tmp/test.sock"]);
    let clients: Vec<Client> = (0..4).map(|_| harness.connect(1)).collect();
    for _ in 0..4 {
        harness.readable(1);
    }
    clients[2].disconnect();
    assert_eq!(harness.readable(4), Some(ReadKind::Closed));
    let again = harness.connect(1);
    harness.readable(1);
    assert_eq!(harness.watched.last().unwrap().token, 4);
    clients[3].disconnect();
    clients[1].disconnect();
    assert_eq!(harness.readable(5), Some(ReadKind::Closed));
    assert_eq!(harness.readable(3), Some(ReadKind::Closed));
    let _lower = harness.connect(1);
    harness.readable(1);
    assert_eq!(harness.watched.last().unwrap().token, 3);
    let _upper = harness.connect(1);
    harness.readable(1);
    assert_eq!(harness.watched.last().unwrap().token, 5);
    assert!(!again.released.get());
    assert!(!clients[0].released.get());
    assert!(clients[1].released.get());
    assert!(clients[2].released.get());
    assert!(clients[3].released.get());
}

#[test]
fn a_stale_event_in_the_same_batch_is_passed_over() {
    let mut harness = Harness::new(&["/tmp/test.sock"]);
    let client = harness.connect(1);
    harness.readable(1);
    client.disconnect();
    let batch = [2usize, 2, 2];
    let handled: Vec<Option<ReadKind>> = batch.iter().map(|token| harness.readable(*token)).collect();
    assert_eq!(handled, vec![Some(ReadKind::Closed), None, None]);
}

#[test]
fn tokens_of_live_connections_never_collide() {
    let mut harness = Harness::new(&["/tmp/a.sock", "/tmp/b.sock"]);
    let mut live: Vec<(usize, Client)> = Vec::new();
    for round in 0..300usize {
        if round % 4 == 3 && !live.is_empty() {
            let (token, client) = live.remove((round * 5) % live.len());
            client.disconnect();
            assert_eq!(harness.readable(token), Some(ReadKind::Closed));
            assert!(client.released.get());
        } else if live.len() < 128 {
            let client = harness.connect(1 + round % 2);
            harness.readable(1 + round % 2);
            let token = harness.watched.last().unwrap().token;
            assert!(token >= 3);
            assert!(live.iter().all(|(taken, _)| *taken != token));
            live.push((token, client));
        }
        for (token, client) in live.iter() {
            assert!(!client.released.get());
            assert!(Rc::ptr_eq(&harness.relay.incoming().socket(*token).unwrap().peer, &client.peer));
            assert_eq!(harness.relay.incoming().connection(*token).unwrap().token(), *token);
        }
    }
}
