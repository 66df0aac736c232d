use hoppy::aodv::{sequence_number_newer, AODVController, Action};
use hoppy::at_address::ATAddress;
use hoppy::packets::{
    parse_packet, AODVPacket, AODVPacketBody, RouteReplyPacket, RouteRequestPacket,
};
use hoppy::read_replies::ATMessage;

const TIMEOUT: u64 = 25_000;

fn address(text: &[u8; 4]) -> ATAddress {
    ATAddress::new(*text).unwrap()
}

/// The controller's reaction to an `LR` frame from `sender` carrying `data`.
fn receive(node: &mut AODVController, sender: &[u8; 4], data: &[u8], now: u64) -> Vec<Action> {
    let message = ATMessage { address: address(sender), data: data.to_vec() };
    let packet = parse_packet(&message).expect("a valid packet");
    node.handle_packet(&packet, now)
}

fn transmissions(actions: &[Action]) -> Vec<(ATAddress, Vec<u8>)> {
    actions
        .iter()
        .filter_map(|a| match a {
            Action::Transmit { destination, data } => Some((*destination, data.clone())),
            Action::Deliver { .. } => None,
        })
        .collect()
}

fn hello_sequence(node: &mut AODVController) -> u16 {
    let actions = node.send_hello();
    let (_, data) = transmissions(&actions).remove(0);
    let message = ATMessage { address: address(b"0001"), data };
    match parse_packet(&message).unwrap().body {
        AODVPacketBody::RouteReply(hello) => hello.request_destination_sequence,
        other => panic!("unexpected {other:?}"),
    }
}

#[test]
fn sequence_number_newer_is_modular() {
    assert!(sequence_number_newer(1, 0));
    assert!(!sequence_number_newer(0, 0));
    assert!(!sequence_number_newer(0, 1));
    assert!(sequence_number_newer(0, 0xFFFF));
    assert!(sequence_number_newer(0x7FFF, 0));
    assert!(!sequence_number_newer(0x8000, 0));
}

#[test]
fn rreq_then_rrep_then_data() {
    // node A, empty routing table
    let mut a = AODVController::new(address(b"4290"), TIMEOUT, 0);
    let actions = a.send(address(b"1234"), b"x".to_vec());
    let sent = transmissions(&actions);
    assert_eq!(sent.len(), 1);
    assert_eq!(sent[0].0, ATAddress::broadcast());
    let request = match parse_packet(&ATMessage { address: address(b"4290"), data: sent[0].1.clone() })
        .unwrap()
        .body
    {
        AODVPacketBody::RouteRequest(r) => r,
        other => panic!("unexpected {other:?}"),
    };
    assert_eq!(request.hop_count, 0);
    assert_eq!(request.id, 0);
    assert_eq!(request.destination, address(b"1234"));
    assert_eq!(request.destination_sequence, None);
    assert_eq!(request.origin, address(b"4290"));
    assert_eq!(request.origin_sequence, 1);
    assert_eq!(sent[0].1, b"0Y0000001234000042900001".to_vec());

    // node B knows 1234 through EEEE at two hops, sequence 5
    let mut b = AODVController::new(address(b"ABCD"), TIMEOUT, 0);
    let learned = b.handle_route_reply(
        address(b"EEEE"),
        &RouteReplyPacket {
            hop_count: 1,
            request_destination: address(b"1234"),
            request_destination_sequence: 5,
            request_origin: None,
        },
        0,
    );
    assert!(learned.is_empty());
    let replies = transmissions(&receive(&mut b, b"4290", &sent[0].1, 1));
    assert_eq!(replies, vec![(address(b"4290"), b"102123400054290".to_vec())]);

    // A installs the route through B and sends the waiting payload
    let delivered = transmissions(&receive(&mut a, b"ABCD", &replies[0].1, 2));
    assert_eq!(delivered, vec![(address(b"ABCD"), b"312344290x".to_vec())]);
    let route = a.routing_table().get_route(address(b"1234")).unwrap();
    assert_eq!(route.next_hop, address(b"ABCD"));
    assert_eq!(route.hop_count, 3);
    assert_eq!(route.destination_sequence, 5);

    // the buffer is empty now: a later reply sends nothing again
    let again = RouteReplyPacket {
        hop_count: 2,
        request_destination: address(b"1234"),
        request_destination_sequence: 6,
        request_origin: Some(address(b"4290")),
    };
    assert!(transmissions(&receive(&mut a, b"ABCD", &again.to_bytes(), 3)).is_empty());

    // with a route, data goes straight to the next hop
    let direct = transmissions(&a.send(address(b"1234"), b"y".to_vec()));
    assert_eq!(direct, vec![(address(b"ABCD"), b"312344290y".to_vec())]);
}

#[test]
fn pending_payloads_are_flushed_in_order_once() {
    let mut a = AODVController::new(address(b"4290"), TIMEOUT, 0);
    a.send(address(b"1234"), b"one".to_vec());
    a.send(address(b"5678"), b"other".to_vec());
    a.send(address(b"1234"), b"two".to_vec());
    let reply = RouteReplyPacket {
        hop_count: 0,
        request_destination: address(b"1234"),
        request_destination_sequence: 1,
        request_origin: Some(address(b"4290")),
    };
    let sent = transmissions(&receive(&mut a, b"1234", &reply.to_bytes(), 5));
    assert_eq!(
        sent,
        vec![
            (address(b"1234"), b"312344290one".to_vec()),
            (address(b"1234"), b"312344290two".to_vec()),
        ]
    );
    let newer = RouteReplyPacket { request_destination_sequence: 2, ..reply };
    assert!(transmissions(&receive(&mut a, b"1234", &newer.to_bytes(), 6)).is_empty());
    // the payload for 5678 still waits for its own route
    let other = RouteReplyPacket { request_destination: address(b"5678"), ..reply };
    let sent = transmissions(&receive(&mut a, b"5678", &other.to_bytes(), 7));
    assert_eq!(sent, vec![(address(b"5678"), b"356784290other".to_vec())]);
}

#[test]
fn duplicate_rreq_is_forwarded_once() {
    let mut a = AODVController::new(address(b"4290"), TIMEOUT, 0);
    let request = RouteRequestPacket {
        hop_count: 3,
        id: 0x0007,
        destination: address(b"1234"),
        destination_sequence: None,
        origin: address(b"9999"),
        origin_sequence: 4,
    };
    let first = transmissions(&receive(&mut a, b"AAAA", &request.to_bytes(), 1));
    let forwarded = RouteRequestPacket { hop_count: 4, ..request };
    assert_eq!(first, vec![(ATAddress::broadcast(), forwarded.to_bytes())]);
    let second = receive(&mut a, b"BBBB", &request.to_bytes(), 2);
    assert!(second.is_empty());
    for _ in 0..5 {
        assert!(receive(&mut a, b"CCCC", &request.to_bytes(), 3).is_empty());
    }
    // the reverse route came from the first copy only
    let back = a.routing_table().get_route(address(b"9999")).unwrap();
    assert_eq!(back.next_hop, address(b"AAAA"));
    assert_eq!(back.hop_count, 4);
}

#[test]
fn own_rreq_is_dropped() {
    let mut a = AODVController::new(address(b"4290"), TIMEOUT, 0);
    let request = RouteRequestPacket {
        hop_count: 1,
        id: 0,
        destination: address(b"1234"),
        destination_sequence: None,
        origin: address(b"4290"),
        origin_sequence: 1,
    };
    assert!(receive(&mut a, b"ABCD", &request.to_bytes(), 1).is_empty());
}

#[test]
fn rreq_for_self_is_answered_with_a_fresh_sequence() {
    let mut a = AODVController::new(address(b"4290"), TIMEOUT, 0);
    let request = RouteRequestPacket {
        hop_count: 0,
        id: 3,
        destination: address(b"4290"),
        destination_sequence: None,
        origin: address(b"9999"),
        origin_sequence: 0x0010,
    };
    let sent = transmissions(&receive(&mut a, b"9999", &request.to_bytes(), 1));
    let reply = RouteReplyPacket {
        hop_count: 0,
        request_destination: address(b"4290"),
        request_destination_sequence: 0x0011,
        request_origin: Some(address(b"9999")),
    };
    assert_eq!(sent, vec![(address(b"9999"), reply.to_bytes())]);
}

#[test]
fn rreq_asking_for_a_fresher_route_is_passed_on() {
    let mut b = AODVController::new(address(b"ABCD"), TIMEOUT, 0);
    b.handle_route_reply(
        address(b"EEEE"),
        &RouteReplyPacket {
            hop_count: 1,
            request_destination: address(b"1234"),
            request_destination_sequence: 5,
            request_origin: None,
        },
        0,
    );
    let request = RouteRequestPacket {
        hop_count: 0,
        id: 1,
        destination: address(b"1234"),
        destination_sequence: Some(6),
        origin: address(b"4290"),
        origin_sequence: 1,
    };
    let sent = transmissions(&receive(&mut b, b"4290", &request.to_bytes(), 1));
    let forwarded = RouteRequestPacket { hop_count: 1, ..request };
    assert_eq!(sent, vec![(ATAddress::broadcast(), forwarded.to_bytes())]);
}

#[test]
fn rrep_is_forwarded_towards_its_origin() {
    let mut b = AODVController::new(address(b"ABCD"), TIMEOUT, 0);
    // route back to 4290 through 4290 itself
    let request = RouteRequestPacket {
        hop_count: 0,
        id: 1,
        destination: address(b"1234"),
        destination_sequence: None,
        origin: address(b"4290"),
        origin_sequence: 1,
    };
    receive(&mut b, b"4290", &request.to_bytes(), 1);
    let reply = RouteReplyPacket {
        hop_count: 0,
        request_destination: address(b"1234"),
        request_destination_sequence: 9,
        request_origin: Some(address(b"4290")),
    };
    let sent = transmissions(&receive(&mut b, b"1234", &reply.to_bytes(), 2));
    let forwarded = RouteReplyPacket { hop_count: 1, ..reply };
    assert_eq!(sent, vec![(address(b"4290"), forwarded.to_bytes())]);
}

#[test]
fn rrep_for_unknown_origin_broadcasts_route_error() {
    let mut b = AODVController::new(address(b"ABCD"), TIMEOUT, 0);
    let reply = RouteReplyPacket {
        hop_count: 0,
        request_destination: address(b"1234"),
        request_destination_sequence: 9,
        request_origin: Some(address(b"4290")),
    };
    let sent = transmissions(&receive(&mut b, b"1234", &reply.to_bytes(), 2));
    assert_eq!(sent, vec![(ATAddress::broadcast(), b"24290".to_vec())]);
}

#[test]
fn route_error_invalidates_and_is_passed_on_only_on_change() {
    let mut a = AODVController::new(address(b"4290"), TIMEOUT, 0);
    let reply = RouteReplyPacket {
        hop_count: 1,
        request_destination: address(b"1234"),
        request_destination_sequence: 3,
        request_origin: None,
    };
    receive(&mut a, b"ABCD", &reply.to_bytes(), 1);
    // from a neighbour that is not the next hop: ignored
    assert!(receive(&mut a, b"EEEE", b"21234", 2).is_empty());
    assert!(a.routing_table().get_route(address(b"1234")).is_some());
    let sent = transmissions(&receive(&mut a, b"ABCD", b"21234", 3));
    assert_eq!(sent, vec![(ATAddress::broadcast(), b"21234".to_vec())]);
    assert!(a.routing_table().get_route(address(b"1234")).is_none());
    assert_eq!(a.routing_table().get_last_known_sequence(address(b"1234")), Some(3));
    // a second copy changes nothing and is dropped
    assert!(receive(&mut a, b"ABCD", b"21234", 4).is_empty());
}

#[test]
fn dead_neighbor_routes_are_removed() {
    let mut a = AODVController::new(address(b"4290"), TIMEOUT, 0);
    let hello = RouteReplyPacket {
        hop_count: 0,
        request_destination: address(b"BEEF"),
        request_destination_sequence: 1,
        request_origin: None,
    };
    receive(&mut a, b"BEEF", &hello.to_bytes(), 1_000);
    let through = RouteReplyPacket {
        hop_count: 1,
        request_destination: address(b"1234"),
        request_destination_sequence: 7,
        request_origin: None,
    };
    receive(&mut a, b"BEEF", &through.to_bytes(), 1_000);
    let other = RouteReplyPacket {
        hop_count: 0,
        request_destination: address(b"ABCD"),
        request_destination_sequence: 1,
        request_origin: None,
    };
    receive(&mut a, b"ABCD", &other.to_bytes(), 20_000);

    // exactly at the timeout nothing happens
    assert!(a.check_neighbor_hello(1_000 + TIMEOUT).is_empty());
    let sent = transmissions(&a.check_neighbor_hello(1_001 + TIMEOUT));
    assert_eq!(
        sent,
        vec![
            (ATAddress::broadcast(), b"2BEEF".to_vec()),
            (ATAddress::broadcast(), b"21234".to_vec()),
        ]
    );
    assert!(a.routing_table().get_route(address(b"BEEF")).is_none());
    assert!(a.routing_table().get_route(address(b"1234")).is_none());
    assert!(a.routing_table().get_route(address(b"ABCD")).is_some());
    // nothing left to expire
    assert!(a.check_neighbor_hello(1_002 + TIMEOUT).is_empty());
}

#[test]
fn data_for_self_is_delivered_and_not_forwarded() {
    let mut a = AODVController::new(address(b"4290"), TIMEOUT, 0);
    let actions = receive(&mut a, b"ABCD", b"342904290Hello", 1);
    assert_eq!(actions.len(), 1);
    match &actions[0] {
        Action::Deliver { origin, payload } => {
            assert_eq!(*origin, address(b"4290"));
            assert_eq!(payload, b"Hello");
        },
        other => panic!("unexpected {other:?}"),
    }
}

#[test]
fn data_for_others_is_forwarded_or_answered_with_route_error() {
    let mut a = AODVController::new(address(b"4290"), TIMEOUT, 0);
    let sent = transmissions(&receive(&mut a, b"ABCD", b"312349999hi", 1));
    assert_eq!(sent, vec![(ATAddress::broadcast(), b"21234".to_vec())]);
    let reply = RouteReplyPacket {
        hop_count: 0,
        request_destination: address(b"1234"),
        request_destination_sequence: 1,
        request_origin: None,
    };
    receive(&mut a, b"1234", &reply.to_bytes(), 2);
    let sent = transmissions(&receive(&mut a, b"ABCD", b"312349999hi", 3));
    assert_eq!(sent, vec![(address(b"1234"), b"312349999hi".to_vec())]);
}

#[test]
fn hello_counts_the_sequence_up() {
    let mut a = AODVController::new(address(b"4290"), TIMEOUT, 0);
    let actions = a.send_hello();
    assert_eq!(transmissions(&actions), vec![(ATAddress::broadcast(), b"10042900001FFFF".to_vec())]);
    assert_eq!(hello_sequence(&mut a), 2);
}

#[test]
fn sequence_number_never_moves_backward() {
    let mut a = AODVController::new(address(b"4290"), TIMEOUT, 0);
    let mut request = RouteRequestPacket {
        hop_count: 0,
        id: 1,
        destination: address(b"1234"),
        destination_sequence: None,
        origin: address(b"9999"),
        origin_sequence: 0x0100,
    };
    receive(&mut a, b"9999", &request.to_bytes(), 1);
    assert_eq!(hello_sequence(&mut a), 0x0101);
    // an older number is ignored
    request.id = 2;
    request.origin_sequence = 0x0005;
    receive(&mut a, b"9999", &request.to_bytes(), 2);
    assert_eq!(hello_sequence(&mut a), 0x0102);
    // a reply with a newer number moves the counter ahead
    let reply = RouteReplyPacket {
        hop_count: 0,
        request_destination: address(b"7777"),
        request_destination_sequence: 0x7000,
        request_origin: None,
    };
    receive(&mut a, b"7777", &reply.to_bytes(), 3);
    assert_eq!(hello_sequence(&mut a), 0x7001);
}

#[test]
fn handle_packet_dispatches_by_type() {
    let mut a = AODVController::new(address(b"4290"), TIMEOUT, 0);
    let packet = AODVPacket {
        sender: address(b"ABCD"),
        body: AODVPacketBody::RouteReply(RouteReplyPacket {
            hop_count: 0,
            request_destination: address(b"ABCD"),
            request_destination_sequence: 1,
            request_origin: None,
        }),
    };
    assert!(a.handle_packet(&packet, 5).is_empty());
    let route = a.routing_table().get_route(address(b"ABCD")).unwrap();
    assert_eq!(route.hop_count, 1);
    assert_eq!(route.last_seen, 5);
    assert_eq!(a.address(), address(b"4290"));
}
