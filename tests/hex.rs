use hoppy::error::Error;
use hoppy::hex::{encode_ascii_hex, parse_ascii_hex};

#[test]
fn encode_gives_exactly_the_width_in_uppercase() {
    assert_eq!(encode_ascii_hex(0xABu8), b"AB");
    assert_eq!(encode_ascii_hex(0x0Fu8), b"0F");
    assert_eq!(encode_ascii_hex(0x1234u16), b"1234");
    assert_eq!(encode_ascii_hex(0x00A0u16), b"00A0");
    assert_eq!(encode_ascii_hex(0u16), b"0000");
    assert_eq!(encode_ascii_hex(0xDEADBEEFu32), b"DEADBEEF");
    assert_eq!(encode_ascii_hex(0x2Au32), b"0000002A");
}

#[test]
fn parse_reads_big_endian_hex() {
    assert_eq!(parse_ascii_hex::<u16>(b"1234"), Ok(0x1234));
    assert_eq!(parse_ascii_hex::<u8>(b"FF"), Ok(255));
    assert_eq!(parse_ascii_hex::<u8>(b"7"), Ok(7));
    assert_eq!(parse_ascii_hex::<u32>(b"DEADBEEF"), Ok(0xDEADBEEF));
    assert_eq!(parse_ascii_hex::<u16>(b""), Ok(0));
}

#[test]
fn parse_rejects_more_digits_than_the_width() {
    assert_eq!(parse_ascii_hex::<u8>(b"123"), Err(Error::InvalidData));
    assert_eq!(parse_ascii_hex::<u16>(b"00001"), Err(Error::InvalidData));
    assert_eq!(parse_ascii_hex::<u32>(b"123456789"), Err(Error::InvalidData));
}

#[test]
fn parse_rejects_other_characters() {
    assert_eq!(parse_ascii_hex::<u16>(b"12G4"), Err(Error::InvalidData));
    assert_eq!(parse_ascii_hex::<u8>(b"ab"), Err(Error::InvalidData));
    assert_eq!(parse_ascii_hex::<u8>(b" 1"), Err(Error::InvalidData));
}

#[test]
fn hex_round_trip_every_u8_and_u16() {
    for n in 0..=u8::MAX {
        assert_eq!(parse_ascii_hex::<u8>(&encode_ascii_hex(n)), Ok(n));
    }
    for n in 0..=u16::MAX {
        assert_eq!(parse_ascii_hex::<u16>(&encode_ascii_hex(n)), Ok(n));
    }
}

#[test]
fn hex_round_trip_u32_samples() {
    for n in [0u32, 1, 0xF, 0x10, 0xFFFF, 0x10000, 0x89ABCDEF, u32::MAX] {
        let text = encode_ascii_hex(n);
        assert_eq!(text.len(), 8);
        assert_eq!(parse_ascii_hex::<u32>(&text), Ok(n));
    }
}
