use syslog_forwarder::connection::Connection;
use syslog_forwarder::table::ConnectionTable;

fn filled(start: usize, capacity: usize, count: u32) -> ConnectionTable<u32> {
    let mut table: ConnectionTable<u32> = ConnectionTable::new_starting_at(start, capacity);
    for socket in 0..count {
        assert!(table.insert(Connection::new(socket)).is_ok());
    }
    table
}

#[test]
fn insert_takes_the_first_token_of_an_empty_table() {
    let mut table: ConnectionTable<u32> = ConnectionTable::new_starting_at(3, 4);
    let token = table.insert(Connection::new(70)).ok().unwrap();
    assert_eq!(token, 3);
    assert!(table.contains(3));
    assert!(!table.contains(4));
}

#[test]
fn new_table_holds_nothing() {
    let table: ConnectionTable<u32> = ConnectionTable::new_starting_at(3, 4);
    for token in 0..10 {
        assert!(!table.contains(token));
        assert!(table.get(token).is_none());
    }
}

#[test]
fn insert_grows_by_one_token_at_a_time() {
    let mut table: ConnectionTable<u32> = ConnectionTable::new_starting_at(5, 8);
    assert_eq!(table.insert(Connection::new(1)).ok(), Some(5));
    assert_eq!(table.insert(Connection::new(2)).ok(), Some(6));
    assert_eq!(table.insert(Connection::new(3)).ok(), Some(7));
    assert_eq!(*table.get(6).unwrap().socket(), 2);
}

#[test]
fn insert_reuses_the_lowest_free_token() {
    let mut table = filled(2, 8, 4);
    assert!(table.remove(2).is_some());
    assert!(table.remove(4).is_some());
    assert_eq!(table.insert(Connection::new(90)).ok(), Some(2));
    assert_eq!(table.insert(Connection::new(91)).ok(), Some(4));
    assert_eq!(table.insert(Connection::new(92)).ok(), Some(6));
}

#[test]
fn insert_reuses_the_lowest_free_token_whatever_the_order_of_removal() {
    let mut table = filled(2, 8, 4);
    assert!(table.remove(4).is_some());
    assert!(table.remove(2).is_some());
    assert!(table.remove(3).is_some());
    assert_eq!(table.insert(Connection::new(90)).ok(), Some(2));
    assert_eq!(table.insert(Connection::new(91)).ok(), Some(3));
    assert_eq!(table.insert(Connection::new(92)).ok(), Some(4));
    assert_eq!(table.insert(Connection::new(93)).ok(), Some(6));
}

#[test]
fn full_table_hands_the_connection_back_and_keeps_its_slots() {
    let mut table = filled(10, 3, 3);
    let back = table.insert(Connection::new(77)).err().unwrap();
    assert_eq!(back.into_socket(), 77);
    assert_eq!(*table.get(10).unwrap().socket(), 0);
    assert_eq!(*table.get(11).unwrap().socket(), 1);
    assert_eq!(*table.get(12).unwrap().socket(), 2);
    assert!(!table.contains(13));
}

#[test]
fn table_of_no_capacity_is_always_full() {
    let mut table: ConnectionTable<u32> = ConnectionTable::new_starting_at(1, 0);
    assert!(table.insert(Connection::new(1)).is_err());
}

#[test]
fn full_table_takes_a_connection_again_after_a_removal() {
    let mut table = filled(10, 3, 3);
    assert!(table.insert(Connection::new(77)).is_err());
    assert_eq!(table.remove(11).map(|c| c.into_socket()), Some(1));
    assert_eq!(table.insert(Connection::new(78)).ok(), Some(11));
    assert!(table.insert(Connection::new(79)).is_err());
}

#[test]
fn remove_returns_the_connection_and_frees_the_token() {
    let mut table = filled(4, 4, 2);
    let removed = table.remove(5).unwrap();
    assert_eq!(removed.into_socket(), 1);
    assert!(!table.contains(5));
    assert!(table.contains(4));
    assert!(table.remove(5).is_none());
}

#[test]
fn remove_of_a_token_outside_the_table_does_nothing() {
    let mut table = filled(4, 4, 2);
    assert!(table.remove(0).is_none());
    assert!(table.remove(3).is_none());
    assert!(table.remove(6).is_none());
    assert!(table.remove(usize::MAX).is_none());
    assert!(table.contains(4));
    assert!(table.contains(5));
}

#[test]
fn get_finds_live_connections_only() {
    let mut table = filled(4, 4, 3);
    table.remove(5);
    assert_eq!(*table.get(4).unwrap().socket(), 0);
    assert!(table.get(5).is_none());
    assert_eq!(*table.get(6).unwrap().socket(), 2);
    assert!(table.get(3).is_none());
    assert!(table.get(7).is_none());
}

#[test]
fn get_mut_changes_the_connection_in_place() {
    let mut table = filled(4, 4, 2);
    table.get_mut(5).unwrap().update_token(5);
    *table.get_mut(5).unwrap().mut_socket() = 500;
    assert_eq!(table.get(5).unwrap().token(), 5);
    assert_eq!(*table.get(5).unwrap().socket(), 500);
    assert_eq!(*table.get(4).unwrap().socket(), 0);
    assert!(table.get_mut(6).is_none());
    assert!(table.get_mut(0).is_none());
}

#[test]
fn a_token_names_one_connection_through_many_inserts_and_removals() {
    let mut table: ConnectionTable<u32> = ConnectionTable::new_starting_at(2, 16);
    let mut live: Vec<(usize, u32)> = Vec::new();
    let mut next_socket: u32 = 0;
    for round in 0..200usize {
        if round % 3 == 2 && !live.is_empty() {
            let (token, socket) = live.remove((round * 7) % live.len());
            assert_eq!(table.remove(token).map(|c| c.into_socket()), Some(socket));
        } else if let Ok(token) = table.insert(Connection::new(next_socket)) {
            assert!(live.iter().all(|(taken, _)| *taken != token));
            let lowest = (2..18).find(|t| live.iter().all(|(taken, _)| taken != t)).unwrap();
            assert_eq!(token, lowest);
            live.push((token, next_socket));
            next_socket += 1;
        } else {
            assert_eq!(live.len(), 16);
        }
        for (token, socket) in live.iter() {
            assert_eq!(*table.get(*token).unwrap().socket(), *socket);
        }
    }
}
