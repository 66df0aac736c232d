use hoppy::at_address::ATAddress;
use hoppy::routing_table::RoutingTable;

fn address(text: &[u8; 4]) -> ATAddress {
    ATAddress::new(*text).unwrap()
}

#[test]
fn new_table_knows_only_its_owner() {
    let table = RoutingTable::new(address(b"4290"), 7);
    let own = table.get_route(address(b"4290")).unwrap();
    assert_eq!(own.destination_sequence, 0);
    assert_eq!(own.next_hop, address(b"4290"));
    assert_eq!(own.hop_count, 0);
    assert_eq!(own.last_seen, 7);
    assert!(table.get_route(address(b"1234")).is_none());
    assert_eq!(table.get_last_known_sequence(address(b"1234")), None);
    assert!(table.neighbors().is_empty());
}

#[test]
fn newer_sequence_wins() {
    let mut table = RoutingTable::new(address(b"4290"), 0);
    let first = table.add_route(address(b"1234"), 5, address(b"ABCD"), 3, 10).unwrap();
    assert_eq!(first.destination_sequence, 5);
    let second = table.add_route(address(b"1234"), 6, address(b"EEEE"), 7, 20).unwrap();
    assert_eq!(second.next_hop, address(b"EEEE"));
    let route = table.get_route(address(b"1234")).unwrap();
    assert_eq!(route.destination_sequence, 6);
    assert_eq!(route.next_hop, address(b"EEEE"));
    assert_eq!(route.hop_count, 7);
    assert_eq!(route.last_seen, 20);
}

#[test]
fn equal_or_older_sequence_never_replaces() {
    let mut table = RoutingTable::new(address(b"4290"), 0);
    table.add_route(address(b"1234"), 5, address(b"ABCD"), 3, 10).unwrap();
    // a shorter route with the same sequence number loses: freshness decides
    assert!(table.add_route(address(b"1234"), 5, address(b"EEEE"), 1, 20).is_none());
    assert!(table.add_route(address(b"1234"), 4, address(b"EEEE"), 1, 20).is_none());
    let route = table.get_route(address(b"1234")).unwrap();
    assert_eq!(route.next_hop, address(b"ABCD"));
    assert_eq!(route.last_seen, 10);
}

#[test]
fn sequence_numbers_wrap_around() {
    let mut table = RoutingTable::new(address(b"4290"), 0);
    table.add_route(address(b"1234"), 0xFFFF, address(b"ABCD"), 3, 10).unwrap();
    assert!(table.add_route(address(b"1234"), 0x0001, address(b"EEEE"), 3, 10).is_some());
    // half the number space ahead is not newer
    assert!(table.add_route(address(b"1234"), 0x8001, address(b"ABCD"), 3, 10).is_none());
    assert_eq!(table.get_route(address(b"1234")).unwrap().next_hop, address(b"EEEE"));
}

#[test]
fn own_entry_is_never_replaced() {
    let mut table = RoutingTable::new(address(b"4290"), 0);
    assert!(table.add_route(address(b"4290"), 9, address(b"ABCD"), 2, 10).is_none());
    assert!(!table.remove_route(address(b"4290"), address(b"4290")));
    let own = table.get_route(address(b"4290")).unwrap();
    assert_eq!(own.next_hop, address(b"4290"));
    assert_eq!(own.destination_sequence, 0);
}

#[test]
fn remove_route_needs_the_same_next_hop() {
    let mut table = RoutingTable::new(address(b"4290"), 0);
    table.add_route(address(b"1234"), 5, address(b"ABCD"), 3, 10).unwrap();
    assert!(!table.remove_route(address(b"1234"), address(b"EEEE")));
    assert!(table.get_route(address(b"1234")).is_some());
    assert!(table.remove_route(address(b"1234"), address(b"ABCD")));
    assert!(table.get_route(address(b"1234")).is_none());
    assert_eq!(table.get_last_known_sequence(address(b"1234")), Some(5));
    // already unreachable: nothing changes
    assert!(!table.remove_route(address(b"1234"), address(b"ABCD")));
}

#[test]
fn unreachable_entry_accepts_any_sequence() {
    let mut table = RoutingTable::new(address(b"4290"), 0);
    table.add_route(address(b"1234"), 5, address(b"ABCD"), 3, 10).unwrap();
    table.remove_route(address(b"1234"), address(b"ABCD"));
    let route = table.add_route(address(b"1234"), 2, address(b"EEEE"), 4, 30).unwrap();
    assert_eq!(route.destination_sequence, 2);
    assert_eq!(table.get_route(address(b"1234")).unwrap().next_hop, address(b"EEEE"));
}

#[test]
fn neighbors_are_routes_to_their_own_next_hop() {
    let mut table = RoutingTable::new(address(b"4290"), 0);
    table.add_route(address(b"ABCD"), 1, address(b"ABCD"), 1, 10);
    table.add_route(address(b"1234"), 1, address(b"ABCD"), 2, 10);
    table.add_route(address(b"BEEF"), 1, address(b"BEEF"), 1, 11);
    table.add_route(address(b"5555"), 1, address(b"5555"), 1, 12);
    table.remove_route(address(b"5555"), address(b"5555"));
    let neighbors: Vec<ATAddress> = table.neighbors().iter().map(|r| r.next_hop).collect();
    assert_eq!(neighbors, vec![address(b"ABCD"), address(b"BEEF")]);
}

#[test]
fn routes_with_next_hop_lists_dependent_routes() {
    let mut table = RoutingTable::new(address(b"4290"), 0);
    table.add_route(address(b"ABCD"), 1, address(b"ABCD"), 1, 10);
    table.add_route(address(b"1234"), 1, address(b"ABCD"), 2, 10);
    table.add_route(address(b"BEEF"), 1, address(b"BEEF"), 1, 11);
    let via: Vec<ATAddress> = table.routes_with_next_hop(address(b"ABCD")).iter().map(|(d, _)| *d).collect();
    assert_eq!(via, vec![address(b"ABCD"), address(b"1234")]);
}
