//! The AODV packets carried as the payload of `LR` frames, and their ASCII form.
//!
//! The first byte selects the packet type (`0` RREQ, `1` RREP, `2` RERR, `3` DATA);
//! the fields follow as fixed-width uppercase hex numbers and four-digit addresses.
use vstd::prelude::*;

use crate::at_address::{
    all_any_case_hex_digits, broadcast_bytes, is_unicast, lemma_address_round_trip, normalized,
    ATAddress,
};
use crate::error::Error;
use crate::hex::{
    all_hex_digits, encode_ascii_hex, hex_encoding, hex_value, lemma_hex_round_trip,
    parse_ascii_hex, pow16, Integer,
};
use crate::read_replies::ATMessage;

verus! {

/// ASCII `Y`: the destination's sequence number is unknown.
pub open spec fn flag_unknown() -> u8 {
    0x59
}

/// ASCII `N`: the destination's sequence number is given.
pub open spec fn flag_known() -> u8 {
    0x4E
}

/// The first of two failures, if any.
pub open spec fn first_failure(a: Option<Error>, b: Option<Error>) -> Option<Error> {
    if a is Some {
        a
    } else {
        b
    }
}

/// Why `s` does not start with a hex number of `n` digits, if it does not.
pub open spec fn int_failure(s: Seq<u8>, n: nat) -> Option<Error> {
    if s.len() < n {
        Some(Error::UnexpectedEof)
    } else if !all_hex_digits(s.subrange(0, n as int)) {
        Some(Error::InvalidData)
    } else {
        None
    }
}

/// Four bytes that `ATAddress::new` accepts.
pub open spec fn address_ok(b: Seq<u8>) -> bool {
    all_any_case_hex_digits(b) && normalized(b) != broadcast_bytes()
}

/// Why `s` does not start with the address of a node, if it does not.
pub open spec fn address_failure(s: Seq<u8>) -> Option<Error> {
    if s.len() < 4 {
        Some(Error::UnexpectedEof)
    } else if !address_ok(s.subrange(0, 4)) {
        Some(Error::InvalidData)
    } else {
        None
    }
}

/// Why `s` does not start with either `FFFF` or the address of a node, if it does not.
pub open spec fn optional_address_failure(s: Seq<u8>) -> Option<Error> {
    if s.len() < 4 {
        Some(Error::UnexpectedEof)
    } else if s.subrange(0, 4) != broadcast_bytes() && !address_ok(s.subrange(0, 4)) {
        Some(Error::InvalidData)
    } else {
        None
    }
}

/// `s` from index `i` on.
pub open spec fn rest(s: Seq<u8>, i: int) -> Seq<u8> {
    s.subrange(i, s.len() as int)
}

/// The number spelled by the `n` hex digits of `s` from index `i`.
pub open spec fn hex_at(s: Seq<u8>, i: int, n: int) -> nat {
    hex_value(s.subrange(i, i + n))
}

/// A packet received from the link-layer neighbour `sender`.
#[derive(Debug)]
pub struct AODVPacket {
    pub sender: ATAddress,
    pub body: AODVPacketBody,
}

#[derive(Debug)]
/// The four kinds of packet.
pub enum AODVPacketBody {
    RouteRequest(RouteRequestPacket),
    RouteReply(RouteReplyPacket),
    RouteError(RouteErrorPacket),
    Data(DataPacket),
}

/// RREQ: a search for a route to `destination`, flooded from `origin`.
#[derive(Clone, Copy, Debug)]
pub struct RouteRequestPacket {
    pub hop_count: u8,
    pub id: u16,
    pub destination: ATAddress,
    /// The newest sequence number of `destination` that the origin knows, if any.
    pub destination_sequence: Option<u16>,
    pub origin: ATAddress,
    pub origin_sequence: u16,
}

/// RREP: a route to `request_destination`, sent back towards `request_origin`.
/// Without a `request_origin` it is a HELLO.
#[derive(Clone, Copy, Debug)]
pub struct RouteReplyPacket {
    pub hop_count: u8,
    pub request_destination: ATAddress,
    pub request_destination_sequence: u16,
    pub request_origin: Option<ATAddress>,
}

/// RERR: `destination` can no longer be reached through the sender.
#[derive(Clone, Copy, Debug)]
pub struct RouteErrorPacket {
    pub destination: ATAddress,
}

/// DATA: an application payload from `origin` to `destination`.
#[derive(Debug)]
pub struct DataPacket {
    pub destination: ATAddress,
    pub origin: ATAddress,
    pub payload: Vec<u8>,
}

/// Splits `amount` bytes off the front of `data`.
fn take_bytes<'a>(data: &mut &'a [u8], amount: usize) -> (r: Result<&'a [u8], Error>)
    ensures
        amount > old(data)@.len() ==> r == Err::<&'a [u8], Error>(Error::UnexpectedEof),
        amount <= old(data)@.len() ==> (r matches Ok(bytes) && bytes@ == old(data)@.subrange(
            0,
            amount as int,
        ) && final(data)@ == rest(old(data)@, amount as int)),
{
    if amount > data.len() {
        return Err(Error::UnexpectedEof);
    }
    let (bytes, remaining) = data.split_at(amount);
    *data = remaining;
    Ok(bytes)
}

/// Reads a hex number of `amount` digits off the front of `data`.
fn take_int<I: Integer>(data: &mut &[u8], amount: usize) -> (r: Result<I, Error>)
    requires
        amount <= I::spec_hex_digits(),
    ensures
        match r {
            Ok(n) => int_failure(old(data)@, amount as nat) is None && n.as_nat() == hex_at(
                old(data)@,
                0,
                amount as int,
            ) && final(data)@ == rest(old(data)@, amount as int),
            Err(e) => int_failure(old(data)@, amount as nat) == Some(e),
        },
{
    let bytes = take_bytes(data, amount)?;
    parse_ascii_hex(bytes)
}

/// Reads the address of a node off the front of `data`.
fn take_address(data: &mut &[u8]) -> (r: Result<ATAddress, Error>)
    ensures
        match r {
            Ok(a) => address_failure(old(data)@) is None && a@ == normalized(
                old(data)@.subrange(0, 4),
            ) && final(data)@ == rest(old(data)@, 4),
            Err(e) => address_failure(old(data)@) == Some(e),
        },
{
    let bytes = take_bytes(data, 4)?;
    match ATAddress::new([bytes[0], bytes[1], bytes[2], bytes[3]]) {
        Ok(a) => {
            assert([bytes[0], bytes[1], bytes[2], bytes[3]]@ =~= bytes@);
            Ok(a)
        },
        Err(_) => {
            assert([bytes[0], bytes[1], bytes[2], bytes[3]]@ =~= bytes@);
            Err(Error::InvalidData)
        },
    }
}

/// Appends `bytes` to `data`.
fn push_bytes(data: &mut Vec<u8>, bytes: &[u8])
    ensures
        final(data)@ == old(data)@ + bytes@,
{
    let mut copy = vstd::slice::slice_to_vec(bytes);
    data.append(&mut copy);
}

/// Why the RREQ body `s` (after its type byte) does not parse, if it does not.
pub open spec fn route_request_failure(s: Seq<u8>) -> Option<Error> {
    if s.len() < 1 {
        Some(Error::UnexpectedEof)
    } else if s[0] != flag_unknown() && s[0] != flag_known() {
        Some(Error::InvalidData)
    } else {
        first_failure(
            int_failure(rest(s, 1), 2),
            first_failure(
                int_failure(rest(s, 3), 4),
                first_failure(
                    address_failure(rest(s, 7)),
                    first_failure(
                        int_failure(rest(s, 11), 4),
                        first_failure(address_failure(rest(s, 15)), int_failure(rest(s, 19), 4)),
                    ),
                ),
            ),
        )
    }
}

/// `p` holds the fields written in the RREQ body `s`.
pub open spec fn route_request_read_from(p: RouteRequestPacket, s: Seq<u8>) -> bool {
    &&& p.destination_sequence == (if s[0] == flag_unknown() {
        None
    } else {
        Some(hex_at(s, 11, 4) as u16)
    })
    &&& p.hop_count == hex_at(s, 1, 2)
    &&& p.id == hex_at(s, 3, 4)
    &&& p.destination@ == normalized(s.subrange(7, 11))
    &&& p.origin@ == normalized(s.subrange(15, 19))
    &&& p.origin_sequence == hex_at(s, 19, 4)
}

/// Why the RREP body `s` does not parse, if it does not.
pub open spec fn route_reply_failure(s: Seq<u8>) -> Option<Error> {
    first_failure(
        int_failure(s, 2),
        first_failure(
            address_failure(rest(s, 2)),
            first_failure(int_failure(rest(s, 6), 4), optional_address_failure(rest(s, 10))),
        ),
    )
}

/// `p` holds the fields written in the RREP body `s`; `FFFF` as the origin means none.
pub open spec fn route_reply_read_from(p: RouteReplyPacket, s: Seq<u8>) -> bool {
    &&& p.hop_count == hex_at(s, 0, 2)
    &&& p.request_destination@ == normalized(s.subrange(2, 6))
    &&& p.request_destination_sequence == hex_at(s, 6, 4)
    &&& (if s.subrange(10, 14) == broadcast_bytes() {
        p.request_origin is None
    } else {
        p.request_origin matches Some(a) && a@ == normalized(s.subrange(10, 14))
    })
}

/// Why the RERR body `s` does not parse, if it does not.
pub open spec fn route_error_failure(s: Seq<u8>) -> Option<Error> {
    address_failure(s)
}

/// `p` holds the fields written in the RERR body `s`.
pub open spec fn route_error_read_from(p: RouteErrorPacket, s: Seq<u8>) -> bool {
    p.destination@ == normalized(s.subrange(0, 4))
}

/// Why the DATA body `s` does not parse, if it does not.
pub open spec fn data_failure(s: Seq<u8>) -> Option<Error> {
    first_failure(address_failure(s), address_failure(rest(s, 4)))
}

/// `p` holds the fields written in the DATA body `s`; the payload is the rest.
pub open spec fn data_read_from(p: DataPacket, s: Seq<u8>) -> bool {
    &&& p.destination@ == normalized(s.subrange(0, 4))
    &&& p.origin@ == normalized(s.subrange(4, 8))
    &&& p.payload@ == rest(s, 8)
}

/// Why the packet `s` does not parse, if it does not.
pub open spec fn packet_failure(s: Seq<u8>) -> Option<Error> {
    if s.len() < 1 {
        Some(Error::UnexpectedEof)
    } else if s[0] == 0x30 {
        route_request_failure(rest(s, 1))
    } else if s[0] == 0x31 {
        route_reply_failure(rest(s, 1))
    } else if s[0] == 0x32 {
        route_error_failure(rest(s, 1))
    } else if s[0] == 0x33 {
        data_failure(rest(s, 1))
    } else {
        Some(Error::InvalidData)
    }
}

/// `body` is the packet written in `s`.
pub open spec fn body_read_from(body: AODVPacketBody, s: Seq<u8>) -> bool {
    match body {
        AODVPacketBody::RouteRequest(p) => s[0] == 0x30 && route_request_read_from(p, rest(s, 1)),
        AODVPacketBody::RouteReply(p) => s[0] == 0x31 && route_reply_read_from(p, rest(s, 1)),
        AODVPacketBody::RouteError(p) => s[0] == 0x32 && route_error_read_from(p, rest(s, 1)),
        AODVPacketBody::Data(p) => s[0] == 0x33 && data_read_from(p, rest(s, 1)),
    }
}

/// Reads the packet carried by an `LR` frame.
pub fn parse_packet(message: &ATMessage) -> (r: Result<AODVPacket, Error>)
    ensures
        match r {
            Ok(packet) => packet_failure(message.data@) is None && packet.sender
                == message.address && body_read_from(packet.body, message.data@),
            Err(e) => packet_failure(message.data@) == Some(e),
        },
{
    let mut data: &[u8] = message.data.as_slice();
    let kind = take_bytes(&mut data, 1)?;
    let ghost s = message.data@;
    assert(data@ == rest(s, 1));
    let body = if kind[0] == 0x30 {
        AODVPacketBody::RouteRequest(RouteRequestPacket::parse_from(data)?)
    } else if kind[0] == 0x31 {
        AODVPacketBody::RouteReply(RouteReplyPacket::parse_from(data)?)
    } else if kind[0] == 0x32 {
        AODVPacketBody::RouteError(RouteErrorPacket::parse_from(data)?)
    } else if kind[0] == 0x33 {
        AODVPacketBody::Data(DataPacket::parse_from(data)?)
    } else {
        return Err(Error::InvalidData);
    };
    Ok(AODVPacket { sender: message.address, body })
}

impl RouteRequestPacket {
    /// The ASCII form of the packet, type byte included.
    pub open spec fn spec_bytes(self) -> Seq<u8> {
        seq![
            0x30u8,
            if self.destination_sequence is None {
                flag_unknown()
            } else {
                flag_known()
            },
        ] + hex_encoding(self.hop_count as nat, 2) + hex_encoding(self.id as nat, 4)
            + self.destination@ + hex_encoding(
            match self.destination_sequence {
                Some(n) => n as nat,
                None => 0,
            },
            4,
        ) + self.origin@ + hex_encoding(self.origin_sequence as nat, 4)
    }

    fn parse_from(data: &[u8]) -> (r: Result<RouteRequestPacket, Error>)
        ensures
            match r {
                Ok(p) => route_request_failure(data@) is None && route_request_read_from(
                    p,
                    data@,
                ),
                Err(e) => route_request_failure(data@) == Some(e),
            },
    {
        let ghost s = data@;
        let mut data = data;
        let flag = take_bytes(&mut data, 1)?;
        let unknown_destination_sequence = if flag[0] == 0x59 {
            true
        } else if flag[0] == 0x4E {
            false
        } else {
            return Err(Error::InvalidData);
        };
        let hop_count: u8 = take_int(&mut data, 2)?;
        assert(rest(rest(s, 1), 2) =~= rest(s, 3));
        assert(rest(s, 1).subrange(0, 2) =~= s.subrange(1, 3));
        let id: u16 = take_int(&mut data, 4)?;
        assert(rest(rest(s, 3), 4) =~= rest(s, 7));
        assert(rest(s, 3).subrange(0, 4) =~= s.subrange(3, 7));
        let destination = take_address(&mut data)?;
        assert(rest(rest(s, 7), 4) =~= rest(s, 11));
        assert(rest(s, 7).subrange(0, 4) =~= s.subrange(7, 11));
        let sequence: u16 = take_int(&mut data, 4)?;
        assert(rest(rest(s, 11), 4) =~= rest(s, 15));
        assert(rest(s, 11).subrange(0, 4) =~= s.subrange(11, 15));
        let origin = take_address(&mut data)?;
        assert(rest(rest(s, 15), 4) =~= rest(s, 19));
        assert(rest(s, 15).subrange(0, 4) =~= s.subrange(15, 19));
        let origin_sequence: u16 = take_int(&mut data, 4)?;
        assert(rest(s, 19).subrange(0, 4) =~= s.subrange(19, 23));
        Ok(RouteRequestPacket {
            hop_count,
            id,
            destination,
            destination_sequence: if unknown_destination_sequence {
                None
            } else {
                Some(sequence)
            },
            origin,
            origin_sequence,
        })
    }

    /// The ASCII form of the packet, type byte included: 24 bytes.
    pub fn to_bytes(&self) -> (r: Vec<u8>)
        ensures
            r@ == self.spec_bytes(),
    {
        let mut data: Vec<u8> = Vec::with_capacity(24);
        data.push(0x30);
        data.push(
            if self.destination_sequence.is_none() {
                0x59
            } else {
                0x4E
            },
        );
        let mut hop = encode_ascii_hex(self.hop_count);
        data.append(&mut hop);
        let mut id = encode_ascii_hex(self.id);
        data.append(&mut id);
        push_bytes(&mut data, self.destination.as_bytes());
        let sequence: u16 = match self.destination_sequence {
            Some(n) => n,
            None => 0,
        };
        let mut sequence = encode_ascii_hex(sequence);
        data.append(&mut sequence);
        push_bytes(&mut data, self.origin.as_bytes());
        let mut origin_sequence = encode_ascii_hex(self.origin_sequence);
        data.append(&mut origin_sequence);
        data
    }
}

impl RouteReplyPacket {
    /// The ASCII form of the packet, type byte included.
    pub open spec fn spec_bytes(self) -> Seq<u8> {
        seq![0x31u8] + hex_encoding(self.hop_count as nat, 2) + self.request_destination@
            + hex_encoding(self.request_destination_sequence as nat, 4) + match self.request_origin {
            Some(a) => a@,
            None => broadcast_bytes(),
        }
    }

    fn parse_from(data: &[u8]) -> (r: Result<RouteReplyPacket, Error>)
        ensures
            match r {
                Ok(p) => route_reply_failure(data@) is None && route_reply_read_from(p, data@),
                Err(e) => route_reply_failure(data@) == Some(e),
            },
    {
        let ghost s = data@;
        let mut data = data;
        let hop_count: u8 = take_int(&mut data, 2)?;
        let request_destination = take_address(&mut data)?;
        assert(rest(rest(s, 2), 4) =~= rest(s, 6));
        assert(rest(s, 2).subrange(0, 4) =~= s.subrange(2, 6));
        let request_destination_sequence: u16 = take_int(&mut data, 4)?;
        assert(rest(rest(s, 6), 4) =~= rest(s, 10));
        assert(rest(s, 6).subrange(0, 4) =~= s.subrange(6, 10));
        let bytes = take_bytes(&mut data, 4)?;
        assert(rest(s, 10).subrange(0, 4) =~= s.subrange(10, 14));
        let request_origin = if bytes[0] == 0x46 && bytes[1] == 0x46 && bytes[2] == 0x46
            && bytes[3] == 0x46 {
            assert(bytes@ =~= broadcast_bytes());
            None
        } else {
            assert(bytes@ != broadcast_bytes()) by {
                if bytes@ == broadcast_bytes() {
                    assert(bytes@[0] == 0x46 && bytes@[1] == 0x46 && bytes@[2] == 0x46 && bytes@[3]
                        == 0x46);
                }
            }
            let array = [bytes[0], bytes[1], bytes[2], bytes[3]];
            assert(array@ =~= bytes@);
            match ATAddress::new(array) {
                Ok(a) => Some(a),
                Err(_) => {
                    return Err(Error::InvalidData);
                },
            }
        };
        Ok(RouteReplyPacket {
            hop_count,
            request_destination,
            request_destination_sequence,
            request_origin,
        })
    }

    /// The ASCII form of the packet, type byte included: 15 bytes.
    pub fn to_bytes(&self) -> (r: Vec<u8>)
        ensures
            r@ == self.spec_bytes(),
    {
        let mut data: Vec<u8> = Vec::with_capacity(15);
        data.push(0x31);
        let mut hop = encode_ascii_hex(self.hop_count);
        data.append(&mut hop);
        push_bytes(&mut data, self.request_destination.as_bytes());
        let mut sequence = encode_ascii_hex(self.request_destination_sequence);
        data.append(&mut sequence);
        match self.request_origin {
            Some(a) => push_bytes(&mut data, a.as_bytes()),
            None => {
                let b = ATAddress::broadcast();
                push_bytes(&mut data, b.as_bytes());
            },
        }
        data
    }
}

impl RouteErrorPacket {
    /// The ASCII form of the packet, type byte included.
    pub open spec fn spec_bytes(self) -> Seq<u8> {
        seq![0x32u8] + self.destination@
    }

    fn parse_from(data: &[u8]) -> (r: Result<RouteErrorPacket, Error>)
        ensures
            match r {
                Ok(p) => route_error_failure(data@) is None && route_error_read_from(p, data@),
                Err(e) => route_error_failure(data@) == Some(e),
            },
    {
        let mut data = data;
        let destination = take_address(&mut data)?;
        Ok(RouteErrorPacket { destination })
    }

    /// The ASCII form of the packet, type byte included: 5 bytes.
    pub fn to_bytes(&self) -> (r: Vec<u8>)
        ensures
            r@ == self.spec_bytes(),
    {
        let mut data: Vec<u8> = Vec::with_capacity(5);
        data.push(0x32);
        push_bytes(&mut data, self.destination.as_bytes());
        data
    }
}

/// The ASCII form of a DATA packet with these fields, type byte included.
pub open spec fn data_bytes(destination: ATAddress, origin: ATAddress, payload: Seq<u8>) -> Seq<u8> {
    seq![0x33u8] + destination@ + origin@ + payload
}

impl DataPacket {
    /// The ASCII form of the packet, type byte included.
    pub open spec fn spec_bytes(self) -> Seq<u8> {
        data_bytes(self.destination, self.origin, self.payload@)
    }

    fn parse_from(data: &[u8]) -> (r: Result<DataPacket, Error>)
        ensures
            match r {
                Ok(p) => data_failure(data@) is None && data_read_from(p, data@),
                Err(e) => data_failure(data@) == Some(e),
            },
    {
        let ghost s = data@;
        let mut data = data;
        let destination = take_address(&mut data)?;
        let origin = take_address(&mut data)?;
        assert(rest(rest(s, 4), 4) =~= rest(s, 8));
        assert(rest(s, 4).subrange(0, 4) =~= s.subrange(4, 8));
        Ok(DataPacket { destination, origin, payload: vstd::slice::slice_to_vec(data) })
    }

    /// The ASCII form of the packet, type byte included: 9 bytes and the payload.
    pub fn to_bytes(&self) -> (r: Vec<u8>)
        ensures
            r@ == self.spec_bytes(),
    {
        let mut data: Vec<u8> = Vec::new();
        data.push(0x33);
        push_bytes(&mut data, self.destination.as_bytes());
        push_bytes(&mut data, self.origin.as_bytes());
        push_bytes(&mut data, self.payload.as_slice());
        data
    }
}

impl AODVPacketBody {
    /// The ASCII form of the packet, type byte included.
    pub open spec fn spec_bytes(self) -> Seq<u8> {
        match self {
            AODVPacketBody::RouteRequest(p) => p.spec_bytes(),
            AODVPacketBody::RouteReply(p) => p.spec_bytes(),
            AODVPacketBody::RouteError(p) => p.spec_bytes(),
            AODVPacketBody::Data(p) => p.spec_bytes(),
        }
    }

    /// Every address in the packet is the address of a single node; the broadcast
    /// address can only stand for a missing RREP origin.
    pub open spec fn wf(self) -> bool {
        match self {
            AODVPacketBody::RouteRequest(p) => is_unicast(p.destination@) && is_unicast(
                p.origin@,
            ),
            AODVPacketBody::RouteReply(p) => is_unicast(p.request_destination@) && match p.request_origin {
                Some(a) => is_unicast(a@),
                None => true,
            },
            AODVPacketBody::RouteError(p) => is_unicast(p.destination@),
            AODVPacketBody::Data(p) => is_unicast(p.destination@) && is_unicast(p.origin@),
        }
    }

    /// The two packets have the same type and fields (payloads compared by content).
    pub open spec fn same_as(self, other: AODVPacketBody) -> bool {
        match (self, other) {
            (AODVPacketBody::Data(a), AODVPacketBody::Data(b)) => a.destination == b.destination
                && a.origin == b.origin && a.payload@ == b.payload@,
            (AODVPacketBody::Data(_), _) => false,
            (_, AODVPacketBody::Data(_)) => false,
            _ => self == other,
        }
    }
}

proof fn lemma_hex_field(n: nat, width: nat, s: Seq<u8>, i: int)
    requires
        n < pow16(width),
        0 <= i,
        i + width <= s.len(),
        s.subrange(i, i + width) == hex_encoding(n, width),
    ensures
        all_hex_digits(s.subrange(i, i + width)),
        hex_at(s, i, width as int) == n,
        int_failure(rest(s, i), width) is None,
{
    lemma_hex_round_trip(n, width);
    assert(rest(s, i).subrange(0, width as int) =~= s.subrange(i, i + width));
}

proof fn lemma_address_field(a: ATAddress, s: Seq<u8>, i: int)
    requires
        is_unicast(a@),
        0 <= i,
        i + 4 <= s.len(),
        s.subrange(i, i + 4) == a@,
    ensures
        address_failure(rest(s, i)) is None,
        optional_address_failure(rest(s, i)) is None,
        forall|b: ATAddress| #[trigger] (b@) == normalized(s.subrange(i, i + 4)) ==> b == a,
{
    lemma_address_round_trip(a);
    assert(rest(s, i).subrange(0, 4) =~= s.subrange(i, i + 4));
}

/// Reading the ASCII form of a packet gives the packet back: the type byte, the
/// `Y`/`N` flag of a RREQ and `FFFF` for a missing RREP origin included.
pub proof fn lemma_packet_round_trip(body: AODVPacketBody)
    requires
        body.wf(),
    ensures
        packet_failure(body.spec_bytes()) is None,
        forall|q: AODVPacketBody| #[trigger]
            body_read_from(q, body.spec_bytes()) ==> q.same_as(body),
{
    let bytes = body.spec_bytes();
    let s = rest(bytes, 1);
    match body {
        AODVPacketBody::RouteRequest(p) => {
            let dseq: nat = match p.destination_sequence {
                Some(n) => n as nat,
                None => 0,
            };
            p.hop_count.lemma_fits();
            p.id.lemma_fits();
            p.origin_sequence.lemma_fits();
            reveal_with_fuel(pow16, 5);
            lemma_hex_round_trip(p.hop_count as nat, 2);
            lemma_hex_round_trip(p.id as nat, 4);
            lemma_hex_round_trip(dseq, 4);
            lemma_hex_round_trip(p.origin_sequence as nat, 4);
            p.destination.lemma_len();
            p.origin.lemma_len();
            assert(s.len() == 23);
            assert(s.subrange(1, 3) =~= hex_encoding(p.hop_count as nat, 2));
            assert(s.subrange(3, 7) =~= hex_encoding(p.id as nat, 4));
            assert(s.subrange(7, 11) =~= p.destination@);
            assert(s.subrange(11, 15) =~= hex_encoding(dseq, 4));
            assert(s.subrange(15, 19) =~= p.origin@);
            assert(s.subrange(19, 23) =~= hex_encoding(p.origin_sequence as nat, 4));
            lemma_hex_field(p.hop_count as nat, 2, s, 1);
            lemma_hex_field(p.id as nat, 4, s, 3);
            lemma_address_field(p.destination, s, 7);
            lemma_hex_field(dseq, 4, s, 11);
            lemma_address_field(p.origin, s, 15);
            lemma_hex_field(p.origin_sequence as nat, 4, s, 19);
            assert forall|q: AODVPacketBody| #[trigger]
                body_read_from(q, bytes) implies q.same_as(body) by {
                if let AODVPacketBody::RouteRequest(r) = q {
                    assert(r.destination == p.destination);
                    assert(r.origin == p.origin);
                }
            }
        },
        AODVPacketBody::RouteReply(p) => {
            p.hop_count.lemma_fits();
            p.request_destination_sequence.lemma_fits();
            reveal_with_fuel(pow16, 5);
            lemma_hex_round_trip(p.hop_count as nat, 2);
            lemma_hex_round_trip(p.request_destination_sequence as nat, 4);
            p.request_destination.lemma_len();
            let origin_bytes = match p.request_origin {
                Some(a) => a@,
                None => broadcast_bytes(),
            };
            if let Some(a) = p.request_origin {
                a.lemma_len();
            }
            assert(s.len() == 14);
            assert(s.subrange(0, 2) =~= hex_encoding(p.hop_count as nat, 2));
            assert(s.subrange(2, 6) =~= p.request_destination@);
            assert(s.subrange(6, 10) =~= hex_encoding(p.request_destination_sequence as nat, 4));
            assert(s.subrange(10, 14) =~= origin_bytes);
            lemma_hex_field(p.hop_count as nat, 2, s, 0);
            assert(rest(s, 0) =~= s);
            lemma_address_field(p.request_destination, s, 2);
            lemma_hex_field(p.request_destination_sequence as nat, 4, s, 6);
            if let Some(a) = p.request_origin {
                lemma_address_field(a, s, 10);
            } else {
                assert(rest(s, 10).subrange(0, 4) =~= s.subrange(10, 14));
            }
            assert forall|q: AODVPacketBody| #[trigger]
                body_read_from(q, bytes) implies q.same_as(body) by {
                if let AODVPacketBody::RouteReply(r) = q {
                    assert(r.request_destination == p.request_destination);
                    if let Some(a) = p.request_origin {
                        assert(r.request_origin matches Some(b) && b == a);
                    }
                }
            }
        },
        AODVPacketBody::RouteError(p) => {
            p.destination.lemma_len();
            assert(s =~= p.destination@);
            assert(rest(s, 0) =~= s);
            lemma_address_field(p.destination, s, 0);
            assert forall|q: AODVPacketBody| #[trigger]
                body_read_from(q, bytes) implies q.same_as(body) by {
                if let AODVPacketBody::RouteError(r) = q {
                    assert(r.destination == p.destination);
                }
            }
        },
        AODVPacketBody::Data(p) => {
            p.destination.lemma_len();
            p.origin.lemma_len();
            assert(s.subrange(0, 4) =~= p.destination@);
            assert(s.subrange(4, 8) =~= p.origin@);
            assert(rest(s, 8) =~= p.payload@);
            assert(rest(s, 0) =~= s);
            lemma_address_field(p.destination, s, 0);
            lemma_address_field(p.origin, s, 4);
            assert forall|q: AODVPacketBody| #[trigger]
                body_read_from(q, bytes) implies q.same_as(body) by {
                if let AODVPacketBody::Data(r) = q {
                    assert(r.destination == p.destination);
                    assert(r.origin == p.origin);
                }
            }
        },
    }
}

} // verus!
