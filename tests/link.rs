use hoppy::aodv::{AODVController, Action};
use hoppy::at_address::ATAddress;
use hoppy::at_module::ATModule;
use hoppy::command_sender::Dialogue;
use hoppy::config::{ATConfig, HeaderMode, ReceiveMode};
use hoppy::error::Error;
use hoppy::packets::parse_packet;
use hoppy::read_replies::{ATMessage, ATReply, Demultiplexer, Inbound, ReadRequest};
use read_buffer::DynReadBuffer;

fn address(text: &[u8; 4]) -> ATAddress {
    ATAddress::new(*text).unwrap()
}

/// Everything the demultiplexer reads from `wire`: replies, frames, errors, in order.
fn demultiplex(wire: &[u8]) -> Vec<Result<Inbound, Error>> {
    let mut buffer = DynReadBuffer::new(wire);
    let mut demux = Demultiplexer::new();
    let mut items = Vec::new();
    loop {
        let bytes = match demux.next_read() {
            ReadRequest::Exactly(n) => buffer.read_bytes(n),
            ReadRequest::Through(d) => buffer.read_until(d),
        };
        let Ok(bytes) = bytes else { break };
        if let Some(item) = demux.on_bytes(bytes) {
            items.push(item);
        }
    }
    items
}

fn queues(wire: &[u8]) -> (Vec<Vec<u8>>, Vec<(ATAddress, Vec<u8>)>, Vec<Error>) {
    let mut replies = Vec::new();
    let mut messages = Vec::new();
    let mut errors = Vec::new();
    for item in demultiplex(wire) {
        match item {
            Ok(Inbound::Reply(reply)) => replies.push(reply.data().to_vec()),
            Ok(Inbound::Message(ATMessage { address, data })) => messages.push((address, data)),
            Err(e) => errors.push(e),
        }
    }
    (replies, messages, errors)
}

/// Runs `dialogue` against the replies in `wire`; returns what was written and the
/// outcome, and the frames that arrived meanwhile.
fn run(mut dialogue: Dialogue, wire: &[u8]) -> (Vec<u8>, Option<Result<(), Error>>, Vec<ATMessage>) {
    let mut written = Vec::new();
    let mut messages = Vec::new();
    let mut replies: Vec<ATReply> = Vec::new();
    for item in demultiplex(wire) {
        match item.unwrap() {
            Inbound::Reply(reply) => replies.push(reply),
            Inbound::Message(message) => messages.push(message),
        }
    }
    let mut replies = replies.into_iter();
    let mut outcome = None;
    while !dialogue.is_finished() {
        written.extend_from_slice(dialogue.next_write());
        let Some(reply) = replies.next() else { break };
        outcome = dialogue.on_reply(&reply);
    }
    (written, outcome, messages)
}

#[test]
fn send_dialogue_success() {
    let link = ATModule::new(address(b"4290"));
    let wire = b"AT,OK\r\nAT,OK\r\nAT,SENDING\r\nAT,SENDED\r\n";
    let (written, outcome, messages) = run(link.send(address(b"1234"), b"HI"), wire);
    assert_eq!(written, b"AT+DEST=1234\r\nAT+SEND=2\r\nHI".to_vec());
    assert_eq!(outcome, Some(Ok(())));
    assert!(messages.is_empty());
}

#[test]
fn interleaved_inbound_during_send() {
    let link = ATModule::new(address(b"4290"));
    let wire = b"AT,OK\r\nLR,ABCD,04,PING\r\nAT,OK\r\nAT,SENDING\r\nAT,SENDED\r\n";
    let (written, outcome, messages) = run(link.send(address(b"1234"), b"HI"), wire);
    assert_eq!(written, b"AT+DEST=1234\r\nAT+SEND=2\r\nHI".to_vec());
    assert_eq!(outcome, Some(Ok(())));
    assert_eq!(messages.len(), 1);
    assert_eq!(messages[0].address, address(b"ABCD"));
    assert_eq!(messages[0].data, b"PING".to_vec());
}

#[test]
fn send_dialogue_fails_on_error_reply() {
    let link = ATModule::new(address(b"4290"));
    let (written, outcome, _) = run(link.send(address(b"1234"), b"HI"), b"AT,ERR:PARA\r\n");
    assert_eq!(written, b"AT+DEST=1234\r\n".to_vec());
    assert_eq!(outcome, Some(Err(Error::Protocol)));
    let (written, outcome, _) = run(link.send(address(b"1234"), b"HI"), b"AT,OK\r\nAT,OK\r\nAT,SENDED\r\n");
    assert_eq!(written, b"AT+DEST=1234\r\nAT+SEND=2\r\nHI".to_vec());
    assert_eq!(outcome, Some(Err(Error::Protocol)));
}

#[test]
fn broadcast_goes_to_ffff() {
    let link = ATModule::new(address(b"4290"));
    let wire = b"AT,OK\r\nAT,OK\r\nAT,SENDING\r\nAT,SENDED\r\n";
    let data = vec![b'z'; 12];
    let (written, outcome, _) = run(link.broadcast(&data), wire);
    let mut expected = b"AT+DEST=FFFF\r\nAT+SEND=12\r\n".to_vec();
    expected.extend_from_slice(&data);
    assert_eq!(written, expected);
    assert_eq!(outcome, Some(Ok(())));
    assert_eq!(link.address(), address(b"4290"));
}

#[test]
fn setup_dialogue_configures_and_sets_address() {
    let link = ATModule::new(address(b"4290"));
    let config = ATConfig {
        frequency: 433920000,
        power: 5,
        bandwidth: 9,
        spreading_factor: 7,
        error_coding: 4,
        crc: true,
        header_mode: HeaderMode::Explicit,
        receive_mode: ReceiveMode::Continue,
        frequency_hop: false,
        hop_period: 0,
        receive_timeout: 3000,
        payload_length: 8,
        preamble_length: 8,
    };
    assert_eq!(config.to_bytes(), b"433920000,5,9,7,4,1,0,0,0,0,3000,8,8".to_vec());
    let (written, outcome, _) = run(link.setup(&config), b"AT,OK\r\nAT,OK\r\n");
    assert_eq!(
        written,
        b"AT+CFG=433920000,5,9,7,4,1,0,0,0,0,3000,8,8\r\nAT+ADDR=4290\r\n".to_vec()
    );
    assert_eq!(outcome, Some(Ok(())));
    let (_, outcome, _) = run(link.setup(&config), b"AT,ERR:CMD\r\n");
    assert_eq!(outcome, Some(Err(Error::Protocol)));
}

#[test]
fn config_modes_and_flags() {
    let config = ATConfig {
        frequency: 0,
        power: 255,
        bandwidth: 10,
        spreading_factor: 12,
        error_coding: 1,
        crc: false,
        header_mode: HeaderMode::Implicit,
        receive_mode: ReceiveMode::Single,
        frequency_hop: true,
        hop_period: 4294967295,
        receive_timeout: 65535,
        payload_length: 0,
        preamble_length: 100,
    };
    assert_eq!(config.to_bytes(), b"0,255,10,12,1,0,1,1,1,4294967295,65535,0,100".to_vec());
}

#[test]
fn reply_then_frame_in_either_order() {
    let (replies, messages, errors) = queues(b"AT,OK\r\nLR,AAAA,04,PING\r\n");
    assert_eq!(replies, vec![b"OK".to_vec()]);
    assert_eq!(messages, vec![(address(b"AAAA"), b"PING".to_vec())]);
    assert!(errors.is_empty());
    let (replies, messages, errors) = queues(b"LR,AAAA,04,PING\r\nAT,OK\r\n");
    assert_eq!(replies, vec![b"OK".to_vec()]);
    assert_eq!(messages, vec![(address(b"AAAA"), b"PING".to_vec())]);
    assert!(errors.is_empty());
}

#[test]
fn queues_keep_wire_order() {
    let wire = b"LR,AAAA,04,PING\r\nAT,OK\r\nLR,1234,02,\r\n\r\nAT,SENDING\r\nLR,beef,00,\r\nAT,SENDED\r\n";
    let (replies, messages, errors) = queues(wire);
    assert_eq!(replies, vec![b"OK".to_vec(), b"SENDING".to_vec(), b"SENDED".to_vec()]);
    assert_eq!(
        messages,
        vec![
            (address(b"AAAA"), b"PING".to_vec()),
            (address(b"1234"), b"\r\n".to_vec()),
            (address(b"BEEF"), Vec::new()),
        ]
    );
    assert!(errors.is_empty());
}

#[test]
fn local_delivery_through_the_wire() {
    let (_, messages, _) = queues(b"LR,ABCD,0E,342904290Hello\r\n");
    assert_eq!(messages.len(), 1);
    let mut node = AODVController::new(address(b"4290"), 25_000, 0);
    let message = ATMessage { address: messages[0].0, data: messages[0].1.clone() };
    let packet = parse_packet(&message).unwrap();
    let actions = node.handle_packet(&packet, 1);
    assert_eq!(actions.len(), 1);
    match &actions[0] {
        Action::Deliver { origin, payload } => {
            assert_eq!(*origin, address(b"4290"));
            assert_eq!(payload, b"Hello");
        },
        other => panic!("unexpected {other:?}"),
    }
}

#[test]
fn malformed_input_is_reported_and_skipped() {
    // a bad prefix, then a good reply
    let (replies, _, errors) = queues(b"XY,AT,OK\r\n");
    assert_eq!(errors, vec![Error::InvalidData]);
    assert_eq!(replies, vec![b"OK".to_vec()]);
    // a reply line without `\r`
    let (replies, _, errors) = queues(b"AT,OK\nAT,OK\r\n");
    assert_eq!(errors, vec![Error::InvalidData]);
    assert_eq!(replies, vec![b"OK".to_vec()]);
    // a header without commas, a bad length digit, the broadcast source
    for wire in [&b"LR,ABCD;04;PING\r\n"[..], b"LR,ABCD,0G,", b"LR,FFFF,01,x\r\n"] {
        let (_, messages, errors) = queues(wire);
        assert!(messages.is_empty());
        assert_eq!(errors[0], Error::InvalidData);
    }
    // a frame whose payload is not followed by `\r\n`
    let (_, messages, errors) = queues(b"LR,ABCD,02,PING\r\n");
    assert!(messages.is_empty());
    assert_eq!(errors[0], Error::InvalidData);
}

#[test]
fn reply_predicates() {
    let (replies, _, _) = queues(b"AT,OK\r\nAT,SENDING\r\nAT,SENDED\r\nAT,ERR:SYMBLE\r\n");
    assert_eq!(replies.len(), 4);
    let replies: Vec<ATReply> = replies.into_iter().map(ATReply::new).collect();
    assert!(replies[0].is_ok() && !replies[0].is_sending() && !replies[0].is_sent());
    assert!(replies[1].is_sending() && !replies[1].is_ok());
    assert!(replies[2].is_sent() && !replies[2].is_sending());
    assert!(!replies[3].is_ok() && !replies[3].is_sending() && !replies[3].is_sent());
}
