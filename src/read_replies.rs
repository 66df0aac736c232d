//! What the radio sends to the host: replies to commands (`AT,...`) and frames
//! received from other nodes (`LR,...`).
use vstd::prelude::*;

use crate::at_address::{
    address_from, is_unicast, lemma_address_from, lemma_address_round_trip, normalized, ATAddress,
};
use crate::error::Error;
use crate::hex::{all_hex_digits, hex_encoding, hex_value, lemma_hex_round_trip, parse_ascii_hex, pow16};
use crate::packets::address_ok;

verus! {

/// The bytes `OK`.
pub open spec fn ok_bytes() -> Seq<u8> {
    seq![0x4Fu8, 0x4Bu8]
}

/// The bytes `SENDING`.
pub open spec fn sending_bytes() -> Seq<u8> {
    seq![0x53u8, 0x45u8, 0x4Eu8, 0x44u8, 0x49u8, 0x4Eu8, 0x47u8]
}

/// The bytes `SENDED`.
pub open spec fn sended_bytes() -> Seq<u8> {
    seq![0x53u8, 0x45u8, 0x4Eu8, 0x44u8, 0x45u8, 0x44u8]
}

/// The text of an `AT,<text>\r\n` reply, without its prefix and line end.
#[derive(Debug)]
pub struct ATReply {
    data: Vec<u8>,
}

impl View for ATReply {
    type V = Seq<u8>;

    closed spec fn view(&self) -> Seq<u8> {
        self.data@
    }
}

/// Compares two byte strings.
fn bytes_equal(a: &[u8], b: &[u8]) -> (r: bool)
    ensures
        r == (a@ == b@),
{
    if a.len() != b.len() {
        return false;
    }
    let mut i: usize = 0;
    while i < a.len()
        invariant
            i <= a@.len() == b@.len(),
            forall|k: int| 0 <= k < i ==> a@[k] == b@[k],
        decreases a@.len() - i,
    {
        if a[i] != b[i] {
            return false;
        }
        i = i + 1;
    }
    assert(a@ =~= b@);
    true
}

impl ATReply {
    /// A reply with the given text.
    pub fn new(data: Vec<u8>) -> (r: ATReply)
        ensures
            r@ == data@,
    {
        ATReply { data }
    }

    /// The reply's text.
    pub fn data(&self) -> (r: &[u8])
        ensures
            r@ == self@,
    {
        self.data.as_slice()
    }

    /// The reply is `OK`.
    pub fn is_ok(&self) -> (r: bool)
        ensures
            r == (self@ == ok_bytes()),
    {
        let expected: [u8; 2] = [0x4F, 0x4B];
        assert(expected@ =~= ok_bytes());
        bytes_equal(self.data.as_slice(), expected.as_slice())
    }

    /// The reply is `SENDING`.
    pub fn is_sending(&self) -> (r: bool)
        ensures
            r == (self@ == sending_bytes()),
    {
        let expected: [u8; 7] = [0x53, 0x45, 0x4E, 0x44, 0x49, 0x4E, 0x47];
        assert(expected@ =~= sending_bytes());
        bytes_equal(self.data.as_slice(), expected.as_slice())
    }

    /// The reply is `SENDED`, the radio's word for a finished transmission.
    pub fn is_sent(&self) -> (r: bool)
        ensures
            r == (self@ == sended_bytes()),
    {
        let expected: [u8; 6] = [0x53, 0x45, 0x4E, 0x44, 0x45, 0x44];
        assert(expected@ =~= sended_bytes());
        bytes_equal(self.data.as_slice(), expected.as_slice())
    }
}

/// A frame that another node sent to this one: its link-layer source and payload.
#[derive(Debug)]
pub struct ATMessage {
    pub address: ATAddress,
    pub data: Vec<u8>,
}

/// The bytes `AT,` that start a command reply.
pub open spec fn reply_prefix() -> Seq<u8> {
    seq![0x41u8, 0x54u8, 0x2Cu8]
}

/// The bytes `LR,` that start a received frame.
pub open spec fn message_prefix() -> Seq<u8> {
    seq![0x4Cu8, 0x52u8, 0x2Cu8]
}

/// The line end `\r\n`.
pub open spec fn line_end() -> Seq<u8> {
    seq![0x0Du8, 0x0Au8]
}

/// What the radio's output is read as: a command reply, or a frame from another
/// node.
#[derive(Debug)]
pub enum Inbound {
    Reply(ATReply),
    Message(ATMessage),
}

/// An inbound item as values.
pub enum InboundValue {
    Reply(Seq<u8>),
    Message(ATAddress, Seq<u8>),
}

impl View for Inbound {
    type V = InboundValue;

    open spec fn view(&self) -> InboundValue {
        match self {
            Inbound::Reply(reply) => InboundValue::Reply(reply@),
            Inbound::Message(message) => InboundValue::Message(message.address, message.data@),
        }
    }
}

/// The result of a read, as values.
pub open spec fn result_value(r: Option<Result<Inbound, Error>>) -> Option<Result<InboundValue, Error>> {
    match r {
        None => None,
        Some(Ok(item)) => Some(Ok(item@)),
        Some(Err(e)) => Some(Err(e)),
    }
}

/// Where the reader stands in the radio's output.
#[derive(Clone, Copy, Debug)]
pub enum DemuxState {
    /// Before the three-byte prefix of the next item.
    Prefix,
    /// After `AT,`: the rest of the reply line comes next.
    ReplyLine,
    /// After `LR,`: the eight-byte header `AAAA,LL,` comes next.
    MessageHeader,
    /// After the header: `length` bytes of payload and `\r\n` come next.
    MessageBody { address: ATAddress, length: u8 },
}

/// The next read that the demultiplexer needs.
#[derive(Clone, Copy, PartialEq, Eq, Debug)]
pub enum ReadRequest {
    /// Exactly this many bytes.
    Exactly(usize),
    /// Everything up to and including the first occurrence of this byte.
    Through(u8),
}

/// The read that `state` needs.
pub open spec fn request_of(state: DemuxState) -> ReadRequest {
    match state {
        DemuxState::Prefix => ReadRequest::Exactly(3),
        DemuxState::ReplyLine => ReadRequest::Through(0x0A),
        DemuxState::MessageHeader => ReadRequest::Exactly(8),
        DemuxState::MessageBody { length, .. } => ReadRequest::Exactly((length + 2) as usize),
    }
}

/// An `LR` header `AAAA,LL,`: an address of a node, a comma, two hex digits, a comma.
pub open spec fn header_ok(b: Seq<u8>) -> bool {
    &&& b.len() == 8
    &&& b[4] == 0x2C
    &&& b[7] == 0x2C
    &&& address_ok(b.subrange(0, 4))
    &&& all_hex_digits(b.subrange(5, 7))
}

/// `b` ends with `\r\n`.
pub open spec fn ends_with_line_end(b: Seq<u8>) -> bool {
    b.len() >= 2 && b.subrange(b.len() - 2, b.len() as int) == line_end()
}

/// The next state, and what was read, after the bytes `b` that `state` asked for.
/// Anything malformed is an `InvalidData` error, and reading starts over at the
/// next prefix.
pub open spec fn demux_step(state: DemuxState, b: Seq<u8>) -> (DemuxState, Option<Result<InboundValue, Error>>) {
    match state {
        DemuxState::Prefix => if b == reply_prefix() {
            (DemuxState::ReplyLine, None)
        } else if b == message_prefix() {
            (DemuxState::MessageHeader, None)
        } else {
            (DemuxState::Prefix, Some(Err(Error::InvalidData)))
        },
        DemuxState::ReplyLine => if ends_with_line_end(b) {
            (DemuxState::Prefix, Some(Ok(InboundValue::Reply(b.subrange(0, b.len() - 2)))))
        } else {
            (DemuxState::Prefix, Some(Err(Error::InvalidData)))
        },
        DemuxState::MessageHeader => if header_ok(b) {
            (
                DemuxState::MessageBody {
                    address: address_from(normalized(b.subrange(0, 4))),
                    length: hex_value(b.subrange(5, 7)) as u8,
                },
                None,
            )
        } else {
            (DemuxState::Prefix, Some(Err(Error::InvalidData)))
        },
        DemuxState::MessageBody { address, length } => if b.len() == length + 2 && ends_with_line_end(b) {
            (DemuxState::Prefix, Some(Ok(InboundValue::Message(address, b.subrange(0, b.len() - 2)))))
        } else {
            (DemuxState::Prefix, Some(Err(Error::InvalidData)))
        },
    }
}

/// Splits the radio's output into command replies and received frames. The caller
/// performs the read that `next_read` names and hands the bytes to `on_bytes`.
pub struct Demultiplexer {
    state: DemuxState,
}

/// Whether `bytes` is exactly the three given bytes.
fn is_prefix(bytes: &[u8], first: u8, second: u8, third: u8) -> (r: bool)
    ensures
        r == (bytes@ == seq![first, second, third]),
{
    let r = bytes.len() == 3 && bytes[0] == first && bytes[1] == second && bytes[2] == third;
    assert(r ==> bytes@ =~= seq![first, second, third]);
    r
}

/// Whether `bytes` ends with `\r\n`.
fn has_line_end(bytes: &[u8]) -> (r: bool)
    ensures
        r == ends_with_line_end(bytes@),
{
    let n = bytes.len();
    if n < 2 {
        return false;
    }
    let r = bytes[n - 2] == 0x0D && bytes[n - 1] == 0x0A;
    assert(r ==> bytes@.subrange(n - 2, n as int) =~= line_end());
    assert(bytes@.subrange(n - 2, n as int) == line_end() ==> r) by {
        if bytes@.subrange(n - 2, n as int) == line_end() {
            assert(bytes@.subrange(n - 2, n as int)[0] == 0x0D);
            assert(bytes@.subrange(n - 2, n as int)[1] == 0x0A);
        }
    }
    r
}

/// The reply in a line after `AT,`: the line without its `\r\n`.
fn read_at(line: &[u8]) -> (r: Result<ATReply, Error>)
    ensures
        match r {
            Ok(reply) => ends_with_line_end(line@) && reply@ == line@.subrange(0, line@.len() - 2),
            Err(e) => !ends_with_line_end(line@) && e == Error::InvalidData,
        },
{
    if !has_line_end(line) {
        return Err(Error::InvalidData);
    }
    let text = vstd::slice::slice_subrange(line, 0, line.len() - 2);
    Ok(ATReply::new(vstd::slice::slice_to_vec(text)))
}

/// The source address and payload length in an `LR` header `AAAA,LL,`.
fn read_lr(header: &[u8]) -> (r: Result<(ATAddress, u8), Error>)
    ensures
        match r {
            Ok((address, length)) => header_ok(header@) && address == address_from(
                normalized(header@.subrange(0, 4)),
            ) && length == hex_value(header@.subrange(5, 7)),
            Err(e) => !header_ok(header@) && e == Error::InvalidData,
        },
{
    if header.len() != 8 || header[4] != 0x2C || header[7] != 0x2C {
        return Err(Error::InvalidData);
    }
    let digits = [header[0], header[1], header[2], header[3]];
    assert(digits@ =~= header@.subrange(0, 4));
    let address = match ATAddress::new(digits) {
        Ok(a) => a,
        Err(_) => {
            return Err(Error::InvalidData);
        },
    };
    proof {
        lemma_address_from(address, normalized(header@.subrange(0, 4)));
    }
    let length_digits = vstd::slice::slice_subrange(header, 5, 7);
    let length: u8 = match parse_ascii_hex(length_digits) {
        Ok(n) => n,
        Err(_) => {
            return Err(Error::InvalidData);
        },
    };
    Ok((address, length))
}

impl Demultiplexer {
    /// Where the demultiplexer stands.
    pub closed spec fn state(&self) -> DemuxState {
        self.state
    }

    /// A demultiplexer before the first prefix.
    pub fn new() -> (r: Demultiplexer)
        ensures
            r.state() == DemuxState::Prefix,
    {
        Demultiplexer { state: DemuxState::Prefix }
    }

    /// The read to perform next.
    pub fn next_read(&self) -> (r: ReadRequest)
        ensures
            r == request_of(self.state()),
    {
        match self.state {
            DemuxState::Prefix => ReadRequest::Exactly(3),
            DemuxState::ReplyLine => ReadRequest::Through(0x0A),
            DemuxState::MessageHeader => ReadRequest::Exactly(8),
            DemuxState::MessageBody { length, .. } => ReadRequest::Exactly(length as usize + 2),
        }
    }

    /// Takes the bytes of the read that `next_read` named. Returns a reply or a
    /// frame once one is complete, an error for malformed input (reading then
    /// starts over at the next prefix), and `None` while an item is incomplete.
    pub fn on_bytes(&mut self, bytes: &[u8]) -> (r: Option<Result<Inbound, Error>>)
        ensures
            final(self).state() == demux_step(old(self).state(), bytes@).0,
            result_value(r) == demux_step(old(self).state(), bytes@).1,
    {
        match self.state {
            DemuxState::Prefix => {
                if is_prefix(bytes, 0x41, 0x54, 0x2C) {
                    assert(seq![0x41u8, 0x54u8, 0x2Cu8] =~= reply_prefix());
                    self.state = DemuxState::ReplyLine;
                    None
                } else if is_prefix(bytes, 0x4C, 0x52, 0x2C) {
                    assert(seq![0x41u8, 0x54u8, 0x2Cu8] =~= reply_prefix());
                    assert(seq![0x4Cu8, 0x52u8, 0x2Cu8] =~= message_prefix());
                    self.state = DemuxState::MessageHeader;
                    None
                } else {
                    assert(seq![0x41u8, 0x54u8, 0x2Cu8] =~= reply_prefix());
                    assert(seq![0x4Cu8, 0x52u8, 0x2Cu8] =~= message_prefix());
                    Some(Err(Error::InvalidData))
                }
            },
            DemuxState::ReplyLine => {
                self.state = DemuxState::Prefix;
                match read_at(bytes) {
                    Ok(reply) => Some(Ok(Inbound::Reply(reply))),
                    Err(e) => Some(Err(e)),
                }
            },
            DemuxState::MessageHeader => {
                match read_lr(bytes) {
                    Ok((address, length)) => {
                        self.state = DemuxState::MessageBody { address, length };
                        None
                    },
                    Err(e) => {
                        self.state = DemuxState::Prefix;
                        Some(Err(e))
                    },
                }
            },
            DemuxState::MessageBody { address, length } => {
                self.state = DemuxState::Prefix;
                if bytes.len() != length as usize + 2 || !has_line_end(bytes) {
                    return Some(Err(Error::InvalidData));
                }
                let payload = vstd::slice::slice_subrange(bytes, 0, bytes.len() - 2);
                Some(Ok(Inbound::Message(ATMessage { address, data: vstd::slice::slice_to_vec(payload) })))
            },
        }
    }
}

/// The index of the first `d` in `s`, or the length of `s` if there is none.
pub open spec fn first_index_of(s: Seq<u8>, d: u8) -> nat
    decreases s.len(),
{
    if s.len() == 0 {
        0
    } else if s[0] == d {
        0
    } else {
        1 + first_index_of(s.drop_first(), d)
    }
}

/// What a demultiplexer in `state` reads from `wire` when every read returns the
/// bytes it asked for, until the wire ends: the replies, frames and errors, in
/// order.
pub open spec fn demultiplex(state: DemuxState, wire: Seq<u8>) -> Seq<Result<InboundValue, Error>>
    decreases wire.len(),
{
    let n: int = match request_of(state) {
        ReadRequest::Exactly(n) => n as int,
        ReadRequest::Through(d) => first_index_of(wire, d) as int + 1,
    };
    if 0 < n <= wire.len() {
        let (next, out) = demux_step(state, wire.subrange(0, n));
        let rest = demultiplex(next, wire.subrange(n, wire.len() as int));
        match out {
            Some(o) => seq![o] + rest,
            None => rest,
        }
    } else {
        Seq::empty()
    }
}

/// An item that the radio can send: a reply whose text holds no line feed, or a
/// frame from a node with at most 255 payload bytes.
pub open spec fn item_ok(item: InboundValue) -> bool {
    match item {
        InboundValue::Reply(text) => !text.contains(0x0Au8),
        InboundValue::Message(address, payload) => is_unicast(address@) && payload.len() < 256,
    }
}

/// How the radio writes an item: `AT,<text>\r\n` or `LR,AAAA,LL,<payload>\r\n`.
pub open spec fn item_bytes(item: InboundValue) -> Seq<u8> {
    match item {
        InboundValue::Reply(text) => reply_prefix() + text + line_end(),
        InboundValue::Message(address, payload) => message_prefix() + address@ + seq![0x2Cu8]
            + hex_encoding(payload.len(), 2) + seq![0x2Cu8] + payload + line_end(),
    }
}

/// The items written one after the other.
pub open spec fn items_bytes(items: Seq<InboundValue>) -> Seq<u8>
    decreases items.len(),
{
    if items.len() == 0 {
        Seq::empty()
    } else {
        item_bytes(items[0]) + items_bytes(items.drop_first())
    }
}

proof fn lemma_first_index_after(t: Seq<u8>, u: Seq<u8>, d: u8)
    requires
        !t.contains(d),
    ensures
        first_index_of(t + u, d) == t.len() + first_index_of(u, d),
    decreases t.len(),
{
    if t.len() > 0 {
        assert(t[0] != d) by {
            if t[0] == d {
                assert(t.contains(d));
            }
        }
        assert(!t.drop_first().contains(d)) by {
            if t.drop_first().contains(d) {
                let i = choose|i: int| 0 <= i < t.drop_first().len() && t.drop_first()[i] == d;
                assert(t[i + 1] == d);
            }
        }
        assert((t + u).drop_first() =~= t.drop_first() + u);
        lemma_first_index_after(t.drop_first(), u, d);
    } else {
        assert(t + u =~= u);
    }
}

proof fn lemma_demultiplex_item(item: InboundValue, rest: Seq<u8>)
    requires
        item_ok(item),
    ensures
        demultiplex(DemuxState::Prefix, item_bytes(item) + rest) == seq![Ok::<InboundValue, Error>(item)]
            + demultiplex(DemuxState::Prefix, rest),
{
    let wire = item_bytes(item) + rest;
    assert(wire.subrange(0, 3) =~= match item {
        InboundValue::Reply(_) => reply_prefix(),
        InboundValue::Message(_, _) => message_prefix(),
    });
    assert(reply_prefix() != message_prefix()) by {
        assert(reply_prefix()[0] != message_prefix()[0]);
    }
    let after_prefix = wire.subrange(3, wire.len() as int);
    match item {
        InboundValue::Reply(text) => {
            assert(after_prefix =~= text + (line_end() + rest));
            lemma_first_index_after(text, line_end() + rest, 0x0A);
            assert((line_end() + rest)[0] == 0x0D);
            assert((line_end() + rest).drop_first()[0] == 0x0A);
            assert(first_index_of(line_end() + rest, 0x0A) == 1) by {
                reveal_with_fuel(first_index_of, 2);
            }
            let n = text.len() + 2;
            let line = after_prefix.subrange(0, n as int);
            assert(line =~= text + line_end());
            assert(line.subrange(line.len() - 2, line.len() as int) =~= line_end());
            assert(line.subrange(0, line.len() - 2) =~= text);
            assert(after_prefix.subrange(n as int, after_prefix.len() as int) =~= rest);
            assert(demultiplex(DemuxState::ReplyLine, after_prefix) == seq![
                Ok::<InboundValue, Error>(item),
            ] + demultiplex(DemuxState::Prefix, rest));
            assert(demultiplex(DemuxState::Prefix, wire) == demultiplex(
                DemuxState::ReplyLine,
                after_prefix,
            ));
        },
        InboundValue::Message(address, payload) => {
            reveal_with_fuel(pow16, 3);
            lemma_hex_round_trip(payload.len(), 2);
            lemma_address_round_trip(address);
            address.lemma_len();
            lemma_address_from(address, address@);
            let digits = hex_encoding(payload.len(), 2);
            let header = after_prefix.subrange(0, 8);
            assert(header =~= address@ + seq![0x2Cu8] + digits + seq![0x2Cu8]);
            assert(header.subrange(0, 4) =~= address@);
            assert(header.subrange(5, 7) =~= digits);
            assert(header_ok(header));
            let after_header = after_prefix.subrange(8, after_prefix.len() as int);
            assert(after_header =~= payload + line_end() + rest);
            let body = after_header.subrange(0, payload.len() as int + 2);
            assert(body =~= payload + line_end());
            assert(body.subrange(body.len() - 2, body.len() as int) =~= line_end());
            assert(body.subrange(0, body.len() - 2) =~= payload);
            assert(after_header.subrange(payload.len() as int + 2, after_header.len() as int) =~= rest);
            assert(demultiplex(DemuxState::MessageHeader, after_prefix) == demultiplex(
                DemuxState::MessageBody { address, length: payload.len() as u8 },
                after_header,
            ));
        },
    }
}

/// Replies and frames written one after the other in any order are read back
/// as exactly those items, in the order of the wire: each reply goes to the reply
/// queue and each frame to the message queue, in the order they were written.
pub proof fn lemma_demultiplex_items(items: Seq<InboundValue>)
    requires
        forall|i: int| 0 <= i < items.len() ==> item_ok(#[trigger] items[i]),
    ensures
        demultiplex(DemuxState::Prefix, items_bytes(items)) == items.map_values(
            |item: InboundValue| Ok::<InboundValue, Error>(item),
        ),
    decreases items.len(),
{
    if items.len() == 0 {
        assert(demultiplex(DemuxState::Prefix, Seq::empty()) =~= Seq::empty());
        assert(items.map_values(|item: InboundValue| Ok::<InboundValue, Error>(item)) =~= Seq::empty());
    } else {
        assert(item_ok(items[0]));
        assert forall|i: int| 0 <= i < items.drop_first().len() implies item_ok(
            #[trigger] items.drop_first()[i],
        ) by {
            assert(item_ok(items[i + 1]));
        }
        lemma_demultiplex_items(items.drop_first());
        lemma_demultiplex_item(items[0], items_bytes(items.drop_first()));
        assert(items.map_values(|item: InboundValue| Ok::<InboundValue, Error>(item)) =~= seq![
            Ok::<InboundValue, Error>(items[0]),
        ] + items.drop_first().map_values(|item: InboundValue| Ok::<InboundValue, Error>(item)));
    }
}

} // verus!
