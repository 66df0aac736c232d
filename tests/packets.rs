use hoppy::at_address::ATAddress;
use hoppy::error::Error;
use hoppy::packets::{
    parse_packet, AODVPacketBody, DataPacket, RouteErrorPacket, RouteReplyPacket,
    RouteRequestPacket,
};
use hoppy::read_replies::ATMessage;

fn address(text: &[u8; 4]) -> ATAddress {
    ATAddress::new(*text).unwrap()
}

fn parse(sender: &[u8; 4], data: &[u8]) -> Result<AODVPacketBody, Error> {
    let message = ATMessage { address: address(sender), data: data.to_vec() };
    parse_packet(&message).map(|packet| {
        assert_eq!(packet.sender, address(sender));
        packet.body
    })
}

fn request() -> RouteRequestPacket {
    RouteRequestPacket {
        hop_count: 0x1F,
        id: 0x0007,
        destination: address(b"1234"),
        destination_sequence: Some(0x00A5),
        origin: address(b"9999"),
        origin_sequence: 0xBEEF,
    }
}

#[test]
fn route_request_bytes() {
    let mut p = request();
    assert_eq!(p.to_bytes(), b"0N1F0007123400A59999BEEF".to_vec());
    assert_eq!(p.to_bytes().len(), 24);
    p.destination_sequence = None;
    assert_eq!(p.to_bytes(), b"0Y1F0007123400009999BEEF".to_vec());
}

#[test]
fn route_request_round_trip_keeps_the_flag() {
    for sequence in [Some(0x00A5), None] {
        let mut p = request();
        p.destination_sequence = sequence;
        match parse(b"ABCD", &p.to_bytes()) {
            Ok(AODVPacketBody::RouteRequest(q)) => {
                assert_eq!(q.hop_count, p.hop_count);
                assert_eq!(q.id, p.id);
                assert_eq!(q.destination, p.destination);
                assert_eq!(q.destination_sequence, p.destination_sequence);
                assert_eq!(q.origin, p.origin);
                assert_eq!(q.origin_sequence, p.origin_sequence);
            },
            other => panic!("unexpected {other:?}"),
        }
    }
}

#[test]
fn route_request_unknown_sequence_ignores_its_digits() {
    match parse(b"ABCD", b"0Y1F00071234FFFF9999BEEF") {
        Ok(AODVPacketBody::RouteRequest(q)) => assert_eq!(q.destination_sequence, None),
        other => panic!("unexpected {other:?}"),
    }
}

#[test]
fn route_reply_bytes_and_round_trip() {
    let p = RouteReplyPacket {
        hop_count: 2,
        request_destination: address(b"1234"),
        request_destination_sequence: 5,
        request_origin: Some(address(b"4290")),
    };
    assert_eq!(p.to_bytes(), b"102123400054290".to_vec());
    match parse(b"ABCD", &p.to_bytes()) {
        Ok(AODVPacketBody::RouteReply(q)) => {
            assert_eq!(q.hop_count, 2);
            assert_eq!(q.request_destination, address(b"1234"));
            assert_eq!(q.request_destination_sequence, 5);
            assert_eq!(q.request_origin, Some(address(b"4290")));
        },
        other => panic!("unexpected {other:?}"),
    }
}

#[test]
fn hello_has_ffff_as_origin() {
    let p = RouteReplyPacket {
        hop_count: 0,
        request_destination: address(b"4290"),
        request_destination_sequence: 0x0102,
        request_origin: None,
    };
    assert_eq!(p.to_bytes(), b"10042900102FFFF".to_vec());
    match parse(b"4290", &p.to_bytes()) {
        Ok(AODVPacketBody::RouteReply(q)) => assert_eq!(q.request_origin, None),
        other => panic!("unexpected {other:?}"),
    }
}

#[test]
fn route_error_bytes_and_round_trip() {
    let p = RouteErrorPacket { destination: address(b"BEEF") };
    assert_eq!(p.to_bytes(), b"2BEEF".to_vec());
    match parse(b"ABCD", &p.to_bytes()) {
        Ok(AODVPacketBody::RouteError(q)) => assert_eq!(q.destination, address(b"BEEF")),
        other => panic!("unexpected {other:?}"),
    }
}

#[test]
fn data_bytes_and_round_trip() {
    let p = DataPacket {
        destination: address(b"1234"),
        origin: address(b"4290"),
        payload: b"x".to_vec(),
    };
    assert_eq!(p.to_bytes(), b"312344290x".to_vec());
    match parse(b"ABCD", &p.to_bytes()) {
        Ok(AODVPacketBody::Data(q)) => {
            assert_eq!(q.destination, address(b"1234"));
            assert_eq!(q.origin, address(b"4290"));
            assert_eq!(q.payload, b"x".to_vec());
        },
        other => panic!("unexpected {other:?}"),
    }
}

#[test]
fn data_payload_may_be_empty_or_binary() {
    match parse(b"ABCD", b"312344290") {
        Ok(AODVPacketBody::Data(q)) => assert!(q.payload.is_empty()),
        other => panic!("unexpected {other:?}"),
    }
    match parse(b"ABCD", b"312344290\r\n\x00\xFF") {
        Ok(AODVPacketBody::Data(q)) => assert_eq!(q.payload, b"\r\n\x00\xFF".to_vec()),
        other => panic!("unexpected {other:?}"),
    }
}

#[test]
fn lowercase_addresses_in_packets_read_as_uppercase() {
    match parse(b"ABCD", b"3beef4290hi") {
        Ok(AODVPacketBody::Data(q)) => assert_eq!(q.destination, address(b"BEEF")),
        other => panic!("unexpected {other:?}"),
    }
}

#[test]
fn truncated_packets_are_unexpected_eof() {
    assert_eq!(parse(b"ABCD", b"").unwrap_err(), Error::UnexpectedEof);
    assert_eq!(parse(b"ABCD", b"0").unwrap_err(), Error::UnexpectedEof);
    assert_eq!(parse(b"ABCD", b"0Y1F0007123400009999BEE").unwrap_err(), Error::UnexpectedEof);
    assert_eq!(parse(b"ABCD", b"10212340005429").unwrap_err(), Error::UnexpectedEof);
    assert_eq!(parse(b"ABCD", b"2BEE").unwrap_err(), Error::UnexpectedEof);
    assert_eq!(parse(b"ABCD", b"31234429").unwrap_err(), Error::UnexpectedEof);
}

#[test]
fn malformed_packets_are_invalid_data() {
    // unknown type
    assert_eq!(parse(b"ABCD", b"4abc").unwrap_err(), Error::InvalidData);
    // flag other than Y or N
    assert_eq!(parse(b"ABCD", b"0X1F0007123400009999BEEF").unwrap_err(), Error::InvalidData);
    // bad hex digit in the hop count
    assert_eq!(parse(b"ABCD", b"0Y1G0007123400009999BEEF").unwrap_err(), Error::InvalidData);
    // lowercase hex in a number
    assert_eq!(parse(b"ABCD", b"0Y1f0007123400009999BEEF").unwrap_err(), Error::InvalidData);
    // the broadcast address as a destination
    assert_eq!(parse(b"ABCD", b"0Y1F0007FFFF00009999BEEF").unwrap_err(), Error::InvalidData);
    // lowercase ffff is the broadcast address, not an absent origin
    assert_eq!(parse(b"ABCD", b"10212340005ffff").unwrap_err(), Error::InvalidData);
    assert_eq!(parse(b"ABCD", b"2FFFF").unwrap_err(), Error::InvalidData);
    // an invalid field wins over a later truncation
    assert_eq!(parse(b"ABCD", b"3ZZZZ").unwrap_err(), Error::InvalidData);
}
