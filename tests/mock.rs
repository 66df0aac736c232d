use hoppy::command_parser::{Commands, CommandsError};
use hoppy::mock::{
    bytes_received, parse_unsigned, reply_ok, reply_sended, reply_sending, reply_symbol_error,
    MockRadio, MockReply,
};

fn reply(radio: &mut MockRadio, command: &[u8]) -> Vec<u8> {
    match radio.handle_command(command) {
        MockReply::Reply(r) => r,
        other => panic!("unexpected {other:?}"),
    }
}

#[test]
fn mock_answers_at() {
    let mut radio = MockRadio::new();
    assert_eq!(reply(&mut radio, b"AT"), b"AT,OK\r\n".to_vec());
    assert_eq!(reply(&mut radio, b"ATX"), b"AT,ERR:CMD\r\n".to_vec());
    assert_eq!(reply(&mut radio, b"HELLO"), b"AT,ERR:CMD\r\n".to_vec());
}

#[test]
fn mock_sets_and_reports_addresses() {
    let mut radio = MockRadio::new();
    assert_eq!(reply(&mut radio, b"AT+ADDR?"), b"AT,0000,OK\r\n".to_vec());
    assert_eq!(reply(&mut radio, b"AT+ADDR=4290"), b"AT,OK\r\n".to_vec());
    assert_eq!(reply(&mut radio, b"AT+ADDR?"), b"AT,4290,OK\r\n".to_vec());
    assert_eq!(reply(&mut radio, b"AT+DEST=FFFF"), b"AT,OK\r\n".to_vec());
    assert_eq!(reply(&mut radio, b"AT+DEST?"), b"AT,FFFF,OK\r\n".to_vec());
    assert_eq!(radio.address().as_ascii_bytes(), b"4290");
    assert_eq!(radio.destination().as_ascii_bytes(), b"FFFF");
    // lowercase and wrong lengths are refused, the address stays
    assert_eq!(reply(&mut radio, b"AT+ADDR=abcd"), b"AT,ERR:PARA\r\n".to_vec());
    assert_eq!(reply(&mut radio, b"AT+DEST=123"), b"AT,ERR:PARA\r\n".to_vec());
    assert_eq!(reply(&mut radio, b"AT+ADDR?"), b"AT,4290,OK\r\n".to_vec());
}

#[test]
fn mock_send_announces_payload() {
    let mut radio = MockRadio::new();
    assert!(matches!(radio.handle_command(b"AT+SEND=2"), MockReply::ReceivePayload(2)));
    assert!(matches!(radio.handle_command(b"AT+SEND=+249"), MockReply::ReceivePayload(249)));
    for bad in [&b"AT+SEND=0"[..], b"AT+SEND=250", b"AT+SEND=", b"AT+SEND=-1", b"AT+SEND=1x", b"AT+SEND=99999999999999999999"] {
        assert_eq!(reply(&mut radio, bad), b"AT,ERR:PARA\r\n".to_vec());
    }
}

#[test]
fn mock_reads_thirteen_settings() {
    let mut radio = MockRadio::new();
    assert_eq!(
        reply(&mut radio, b"AT+CFG=433920000,5,9,7,4,1,0,0,0,0,3000,8,8"),
        b"AT,OK\r\n".to_vec()
    );
    assert_eq!(radio.config(), &[433920000, 5, 9, 7, 4, 1, 0, 0, 0, 0, 3000, 8, 8]);
    // too few, a bad number: nothing changes
    assert_eq!(reply(&mut radio, b"AT+CFG=1,2,3"), b"AT,ERR:PARA\r\n".to_vec());
    assert_eq!(reply(&mut radio, b"AT+CFG=1,2,3,4,5,6,7,8,9,10,11,12,x"), b"AT,ERR:PARA\r\n".to_vec());
    assert_eq!(reply(&mut radio, b"AT+CFG=1,2,3,4,5,6,7,8,9,10,11,12,4294967296"), b"AT,ERR:PARA\r\n".to_vec());
    assert_eq!(radio.config()[0], 433920000);
    // a fourteenth field is refused, after the thirteen were taken
    assert_eq!(reply(&mut radio, b"AT+CFG=1,2,3,4,5,6,7,8,9,10,11,12,13,14"), b"AT,ERR:PARA\r\n".to_vec());
    assert_eq!(radio.config(), &[1, 2, 3, 4, 5, 6, 7, 8, 9, 10, 11, 12, 13]);
}

#[test]
fn mock_frames_typed_lines() {
    assert_eq!(bytes_received(b"PING"), Some(b"LR,1234,04,PING\r\n".to_vec()));
    assert_eq!(bytes_received(b""), Some(b"LR,1234,00,\r\n".to_vec()));
    let long = vec![b'a'; 255];
    let frame = bytes_received(&long).unwrap();
    assert_eq!(&frame[..11], b"LR,1234,FF,");
    assert_eq!(frame.len(), 11 + 255 + 2);
    assert_eq!(bytes_received(&vec![b'a'; 256]), None);
}

#[test]
fn mock_reply_lines() {
    assert_eq!(reply_ok(), b"AT,OK\r\n".to_vec());
    assert_eq!(reply_sending(), b"AT,SENDING\r\n".to_vec());
    assert_eq!(reply_sended(), b"AT,SENDED\r\n".to_vec());
    assert_eq!(reply_symbol_error(), b"AT,ERR:SYMBLE\r\n".to_vec());
}

#[test]
fn unsigned_numbers() {
    assert_eq!(parse_unsigned(b"0", 10), Some(0));
    assert_eq!(parse_unsigned(b"+10", 10), Some(10));
    assert_eq!(parse_unsigned(b"11", 10), None);
    assert_eq!(parse_unsigned(b"4294967295", u32::MAX), Some(u32::MAX));
    assert_eq!(parse_unsigned(b"4294967296", u32::MAX), None);
    assert_eq!(parse_unsigned(b"000000000000000000007", u32::MAX), Some(7));
    assert_eq!(parse_unsigned(b"", 10), None);
    assert_eq!(parse_unsigned(b"+", 10), None);
    assert_eq!(parse_unsigned(b"1 ", 10), None);
}

#[test]
fn commands_arrive_in_pieces() {
    let mut commands = Commands::in_stream(b"AT+SE");
    assert_eq!(commands.next(), None);
    commands.push_bytes(b"ND=2\r\nHIAT\n");
    assert_eq!(commands.next(), Some(Ok(b"AT+SEND=2".to_vec())));
    assert_eq!(commands.buffered(), 5);
    assert_eq!(commands.take_bytes(3), Some(b"HIA".to_vec()));
    assert_eq!(commands.take_bytes(3), None);
    assert_eq!(commands.take_bytes(2), Some(b"T\n".to_vec()));
    assert_eq!(commands.next(), None);
    commands.push_bytes(b"X\n");
    assert_eq!(commands.next(), Some(Err(CommandsError::IncorrectLineEnding)));
}
