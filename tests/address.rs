use hoppy::address::Address;
use hoppy::at_address::{ATAddress, ATAddressError};
use hoppy::error::Error;

#[test]
fn address_keeps_uppercase_digits() {
    let a = ATAddress::new(*b"12AB").unwrap();
    assert_eq!(a.as_bytes(), b"12AB");
}

#[test]
fn address_makes_lowercase_uppercase() {
    let a = ATAddress::new(*b"beef").unwrap();
    assert_eq!(a.as_bytes(), b"BEEF");
    assert_eq!(a, ATAddress::new(*b"BEEF").unwrap());
}

#[test]
fn address_rejects_other_characters() {
    assert_eq!(ATAddress::new(*b"12G4"), Err(ATAddressError::InvalidAddress));
    assert_eq!(ATAddress::new(*b"12 4"), Err(ATAddressError::InvalidAddress));
    assert_eq!(ATAddress::new(*b"ffFg"), Err(ATAddressError::InvalidAddress));
}

#[test]
fn address_rejects_broadcast() {
    assert_eq!(ATAddress::new(*b"FFFF"), Err(ATAddressError::BroadcastAddress));
    assert_eq!(ATAddress::new(*b"fFfF"), Err(ATAddressError::BroadcastAddress));
}

#[test]
fn address_round_trips_through_its_bytes() {
    for text in [b"0000", b"1234", b"ABCD", b"FFFE", b"4290"] {
        let a = ATAddress::new(*text).unwrap();
        let bytes: [u8; 4] = a.as_bytes().try_into().unwrap();
        assert_eq!(ATAddress::new(bytes), Ok(a));
    }
}

#[test]
fn broadcast_address_is_ffff() {
    assert_eq!(ATAddress::broadcast().as_bytes(), b"FFFF");
}

#[test]
fn plain_address_takes_four_uppercase_digits() {
    let a = Address::from_ascii(b"12AB").unwrap();
    assert_eq!(a.as_ascii_bytes(), b"12AB");
    assert_eq!(Address::from_ascii(b"FFFF").unwrap().as_ascii_bytes(), b"FFFF");
}

#[test]
fn plain_address_rejects_other_input() {
    assert_eq!(Address::from_ascii(b"12ab").unwrap_err(), Error::InvalidData);
    assert_eq!(Address::from_ascii(b"123").unwrap_err(), Error::InvalidData);
    assert_eq!(Address::from_ascii(b"12345").unwrap_err(), Error::InvalidData);
}

#[test]
fn plain_address_default_is_zero() {
    assert_eq!(Address::default().as_ascii_bytes(), b"0000");
}
