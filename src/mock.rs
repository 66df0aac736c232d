//! A stand-in for the radio module on a serial port: it answers a host's AT
//! commands the way the module does, and frames lines typed by a user as if they
//! had been received from the node `1234`.
use vstd::prelude::*;

use vstd::arithmetic::div_mod::lemma_fundamental_div_mod;

use crate::address::Address;
use crate::command_parser::lemma_first_index_bound;
use crate::hex::{all_hex_digits, encode_ascii_hex, hex_encoding};
use crate::read_replies::first_index_of;

verus! {

/// `b` is an ASCII decimal digit.
pub open spec fn is_digit(b: u8) -> bool {
    0x30 <= b <= 0x39
}

/// The number that a string of decimal digits spells.
pub open spec fn decimal_value(s: Seq<u8>) -> nat
    decreases s.len(),
{
    if s.len() == 0 {
        0
    } else {
        decimal_value(s.drop_last()) * 10 + (s.last() - 0x30) as nat
    }
}

/// `s` without a leading `+`.
pub open spec fn unsigned_digits(s: Seq<u8>) -> Seq<u8> {
    if s.len() > 0 && s[0] == 0x2B {
        s.drop_first()
    } else {
        s
    }
}

/// `s` is an unsigned decimal number: an optional `+`, then at least one digit.
pub open spec fn is_unsigned(s: Seq<u8>) -> bool {
    let d = unsigned_digits(s);
    d.len() > 0 && forall|i: int| 0 <= i < d.len() ==> #[trigger] is_digit(d[i])
}

proof fn lemma_decimal_prefix(s: Seq<u8>, k: int)
    requires
        0 <= k <= s.len(),
        forall|i: int| 0 <= i < s.len() ==> #[trigger] is_digit(s[i]),
    ensures
        decimal_value(s.subrange(0, k)) <= decimal_value(s),
    decreases s.len(),
{
    if k < s.len() {
        assert(is_digit(s[s.len() - 1]));
        assert forall|i: int| 0 <= i < s.drop_last().len() implies #[trigger] is_digit(
            s.drop_last()[i],
        ) by {
            assert(is_digit(s[i]));
        }
        lemma_decimal_prefix(s.drop_last(), k);
        assert(s.drop_last().subrange(0, k) =~= s.subrange(0, k));
    } else {
        assert(s.subrange(0, k) =~= s);
    }
}

/// Reads an unsigned decimal number, as `str::parse` does: an optional `+` and at
/// least one digit. `None` unless the whole input is such a number no larger
/// than `limit`.
pub fn parse_unsigned(s: &[u8], limit: u32) -> (r: Option<u32>)
    ensures
        r == (if is_unsigned(s@) && decimal_value(unsigned_digits(s@)) <= limit {
            Some(decimal_value(unsigned_digits(s@)) as u32)
        } else {
            None
        }),
{
    let mut start: usize = 0;
    if s.len() > 0 && s[0] == 0x2B {
        start = 1;
    }
    let ghost digits = unsigned_digits(s@);
    assert(digits =~= s@.subrange(start as int, s@.len() as int));
    if start == s.len() {
        return None;
    }
    let mut acc: u32 = 0;
    let mut i: usize = start;
    while i < s.len()
        invariant
            start <= i <= s@.len(),
            digits == unsigned_digits(s@),
            digits == s@.subrange(start as int, s@.len() as int),
            forall|k: int| 0 <= k < i - start ==> #[trigger] is_digit(digits[k]),
            acc == decimal_value(digits.subrange(0, i - start)),
            acc <= limit,
        decreases s@.len() - i,
    {
        let b = s[i];
        let ghost prefix = digits.subrange(0, i - start);
        let ghost next = digits.subrange(0, i - start + 1);
        assert(next.drop_last() =~= prefix);
        if b < 0x30 || b > 0x39 {
            assert(!is_digit(digits[i - start]));
            return None;
        }
        let d = (b - 0x30) as u32;
        assert(decimal_value(next) == acc * 10 + d);
        if d > limit || acc > (limit - d) / 10 {
            proof {
                lemma_fundamental_div_mod((limit - d) as int, 10);
                assert(acc * 10 + d > limit) by (nonlinear_arith)
                    requires
                        d > limit || acc > (limit - d) / 10,
                        (limit - d) == 10 * ((limit - d) / 10) + (limit - d) % 10 || d > limit,
                        0 <= (limit - d) % 10 < 10 || d > limit,
                        acc >= 0,
                ;
                if forall|k: int| 0 <= k < digits.len() ==> #[trigger] is_digit(digits[k]) {
                    lemma_decimal_prefix(digits, i - start + 1);
                }
            }
            return None;
        }
        proof {
            lemma_fundamental_div_mod((limit - d) as int, 10);
            assert(acc * 10 + d <= limit) by (nonlinear_arith)
                requires
                    acc <= (limit - d) / 10,
                    d <= limit,
                    (limit - d) == 10 * ((limit - d) / 10) + (limit - d) % 10,
                    0 <= (limit - d) % 10 < 10,
            ;
        }
        acc = acc * 10 + d;
        i = i + 1;
    }
    assert(digits.subrange(0, i - start) =~= digits);
    Some(acc)
}

/// `AT,OK\r\n`
pub open spec fn ok_line() -> Seq<u8> {
    seq![0x41u8, 0x54u8, 0x2Cu8, 0x4Fu8, 0x4Bu8, 0x0Du8, 0x0Au8]
}

/// The reply `AT,OK\r\n`.
pub fn reply_ok() -> (r: Vec<u8>)
    ensures
        r@ == ok_line(),
{
    let r = vec![0x41, 0x54, 0x2C, 0x4F, 0x4B, 0x0D, 0x0A];
    assert(r@ =~= ok_line());
    r
}

/// `AT,SENDING\r\n`
pub open spec fn sending_line() -> Seq<u8> {
    seq![0x41u8, 0x54u8, 0x2Cu8, 0x53u8, 0x45u8, 0x4Eu8, 0x44u8, 0x49u8, 0x4Eu8, 0x47u8, 0x0Du8, 0x0Au8]
}

/// The reply `AT,SENDING\r\n`: the payload is on the air.
pub fn reply_sending() -> (r: Vec<u8>)
    ensures
        r@ == sending_line(),
{
    let r = vec![0x41, 0x54, 0x2C, 0x53, 0x45, 0x4E, 0x44, 0x49, 0x4E, 0x47, 0x0D, 0x0A];
    assert(r@ =~= sending_line());
    r
}

/// `AT,SENDED\r\n`
pub open spec fn sended_line() -> Seq<u8> {
    seq![0x41u8, 0x54u8, 0x2Cu8, 0x53u8, 0x45u8, 0x4Eu8, 0x44u8, 0x45u8, 0x44u8, 0x0Du8, 0x0Au8]
}

/// The reply `AT,SENDED\r\n`: the transmission is over.
pub fn reply_sended() -> (r: Vec<u8>)
    ensures
        r@ == sended_line(),
{
    let r = vec![0x41, 0x54, 0x2C, 0x53, 0x45, 0x4E, 0x44, 0x45, 0x44, 0x0D, 0x0A];
    assert(r@ =~= sended_line());
    r
}

/// `AT,ERR:SYMBLE\r\n`, the module's answer to a line that is not a command.
pub open spec fn symbol_error_line() -> Seq<u8> {
    seq![0x41u8, 0x54u8, 0x2Cu8, 0x45u8, 0x52u8, 0x52u8, 0x3Au8, 0x53u8, 0x59u8, 0x4Du8, 0x42u8, 0x4Cu8, 0x45u8, 0x0Du8, 0x0Au8]
}

/// The reply to a line that is too long or lacks its `\r`: `AT,ERR:SYMBLE\r\n`.
pub fn reply_symbol_error() -> (r: Vec<u8>)
    ensures
        r@ == symbol_error_line(),
{
    let r = vec![0x41, 0x54, 0x2C, 0x45, 0x52, 0x52, 0x3A, 0x53, 0x59, 0x4D, 0x42, 0x4C, 0x45, 0x0D, 0x0A];
    assert(r@ =~= symbol_error_line());
    r
}

/// The node that typed lines appear to come from: `1234`.
pub open spec fn frame_source() -> Seq<u8> {
    seq![0x31u8, 0x32u8, 0x33u8, 0x34u8]
}

/// `LR,1234,LL,<bytes>\r\n`: `bytes` as a frame received from the node `1234`.
pub open spec fn received_frame_bytes(bytes: Seq<u8>) -> Seq<u8> {
    seq![0x4Cu8, 0x52u8, 0x2Cu8] + frame_source() + seq![0x2Cu8] + hex_encoding(bytes.len(), 2)
        + seq![0x2Cu8] + bytes + seq![0x0Du8, 0x0Au8]
}

/// The frame the module would write on receiving `bytes` from the node `1234`;
/// `None` for more than 255 bytes, which the two-digit length cannot state.
pub fn bytes_received(bytes: &[u8]) -> (r: Option<Vec<u8>>)
    ensures
        bytes@.len() < 256 ==> (r matches Some(frame) && frame@ == received_frame_bytes(bytes@)),
        bytes@.len() >= 256 ==> r is None,
{
    if bytes.len() > 255 {
        return None;
    }
    let mut frame: Vec<u8> = vec![0x4C, 0x52, 0x2C, 0x31, 0x32, 0x33, 0x34, 0x2C];
    let mut length = encode_ascii_hex(bytes.len() as u8);
    frame.append(&mut length);
    frame.push(0x2C);
    let mut payload = vstd::slice::slice_to_vec(bytes);
    frame.append(&mut payload);
    frame.push(0x0D);
    frame.push(0x0A);
    assert(frame@ =~= received_frame_bytes(bytes@));
    Some(frame)
}

/// The index of the first `b` in `s`, or the length of `s` if there is none.
fn find_byte(s: &[u8], b: u8) -> (r: usize)
    ensures
        r == first_index_of(s@, b),
        r <= s@.len(),
{
    let mut i: usize = 0;
    while i < s.len() && s[i] != b
        invariant
            i <= s@.len(),
            forall|k: int| 0 <= k < i ==> #[trigger] s@[k] != b,
        decreases s@.len() - i,
    {
        i = i + 1;
    }
    proof {
        lemma_first_index_bound(s@, b, i as nat);
    }
    i
}

/// The comma-separated fields of `s`; an empty `s` is one empty field.
pub open spec fn fields(s: Seq<u8>) -> Seq<Seq<u8>>
    decreases s.len(),
{
    let i = first_index_of(s, 0x2C);
    if i < s.len() {
        seq![s.subrange(0, i as int)] + fields(s.subrange(i as int + 1, s.len() as int))
    } else {
        seq![s]
    }
}

/// The first thirteen fields are numbers that fit in 32 bits.
pub open spec fn config_fields_ok(f: Seq<Seq<u8>>) -> bool {
    f.len() >= 13 && forall|k: int|
        0 <= k < 13 ==> is_unsigned(#[trigger] f[k]) && decimal_value(unsigned_digits(f[k]))
            <= u32::MAX
}

/// The numbers in the first thirteen fields.
pub open spec fn config_values(f: Seq<Seq<u8>>) -> Seq<u32> {
    f.subrange(0, 13).map_values(|x: Seq<u8>| decimal_value(unsigned_digits(x)) as u32)
}

/// `s` starts with `prefix`.
pub open spec fn starts_with(s: Seq<u8>, prefix: Seq<u8>) -> bool {
    s.len() >= prefix.len() && s.subrange(0, prefix.len() as int) == prefix
}

/// `AT`
pub open spec fn at_command() -> Seq<u8> {
    seq![0x41u8, 0x54u8]
}

/// `AT+SEND=`
pub open spec fn send_prefix() -> Seq<u8> {
    seq![0x41u8, 0x54u8, 0x2Bu8, 0x53u8, 0x45u8, 0x4Eu8, 0x44u8, 0x3Du8]
}

/// `AT+ADDR=`
pub open spec fn set_address_prefix() -> Seq<u8> {
    seq![0x41u8, 0x54u8, 0x2Bu8, 0x41u8, 0x44u8, 0x44u8, 0x52u8, 0x3Du8]
}

/// `AT+ADDR?`
pub open spec fn get_address_prefix() -> Seq<u8> {
    seq![0x41u8, 0x54u8, 0x2Bu8, 0x41u8, 0x44u8, 0x44u8, 0x52u8, 0x3Fu8]
}

/// `AT+DEST=`
pub open spec fn set_destination_prefix() -> Seq<u8> {
    seq![0x41u8, 0x54u8, 0x2Bu8, 0x44u8, 0x45u8, 0x53u8, 0x54u8, 0x3Du8]
}

/// `AT+DEST?`
pub open spec fn get_destination_prefix() -> Seq<u8> {
    seq![0x41u8, 0x54u8, 0x2Bu8, 0x44u8, 0x45u8, 0x53u8, 0x54u8, 0x3Fu8]
}

/// `AT+CFG=`
pub open spec fn config_prefix() -> Seq<u8> {
    seq![0x41u8, 0x54u8, 0x2Bu8, 0x43u8, 0x46u8, 0x47u8, 0x3Du8]
}

/// `AT,ERR:PARA\r\n`, the answer to a bad argument.
pub open spec fn parameter_error_line() -> Seq<u8> {
    seq![0x41u8, 0x54u8, 0x2Cu8, 0x45u8, 0x52u8, 0x52u8, 0x3Au8, 0x50u8, 0x41u8, 0x52u8, 0x41u8, 0x0Du8, 0x0Au8]
}

/// `AT,ERR:CMD\r\n`, the answer to an unknown command.
pub open spec fn command_error_line() -> Seq<u8> {
    seq![0x41u8, 0x54u8, 0x2Cu8, 0x45u8, 0x52u8, 0x52u8, 0x3Au8, 0x43u8, 0x4Du8, 0x44u8, 0x0Du8, 0x0Au8]
}

/// `AT,<address>,OK\r\n`, the answer to a query of an address.
pub open spec fn address_reply(address: Seq<u8>) -> Seq<u8> {
    seq![0x41u8, 0x54u8, 0x2Cu8] + address + seq![0x2Cu8, 0x4Fu8, 0x4Bu8, 0x0Du8, 0x0Au8]
}

/// The most payload bytes that `AT+SEND` announces.
pub const MAX_PAYLOAD: u32 = 249;

/// What the module does with a command.
#[derive(Debug)]
pub enum MockReply {
    /// Write this reply.
    Reply(Vec<u8>),
    /// Write `AT,OK\r\n`, read exactly this many payload bytes, then write
    /// `AT,SENDING\r\n` and, once sent, `AT,SENDED\r\n`.
    ReceivePayload(usize),
}

/// What the module does with a command, as values.
pub enum MockReplyValue {
    Reply(Seq<u8>),
    ReceivePayload(nat),
}

impl View for MockReply {
    type V = MockReplyValue;

    open spec fn view(&self) -> MockReplyValue {
        match self {
            MockReply::Reply(r) => MockReplyValue::Reply(r@),
            MockReply::ReceivePayload(n) => MockReplyValue::ReceivePayload(*n as nat),
        }
    }
}

/// The module's state as values.
pub struct MockState {
    pub address: Seq<u8>,
    pub destination: Seq<u8>,
    /// The thirteen settings of the last accepted `AT+CFG`.
    pub config: Seq<u32>,
}

/// The module's answer to `command`, and its state after it.
pub open spec fn mock_step(s: MockState, command: Seq<u8>) -> (MockState, MockReplyValue) {
    let args = |n: int| command.subrange(n, command.len() as int);
    if command == at_command() {
        (s, MockReplyValue::Reply(ok_line()))
    } else if starts_with(command, send_prefix()) {
        let count = args(8);
        if is_unsigned(count) && 1 <= decimal_value(unsigned_digits(count)) <= MAX_PAYLOAD {
            (s, MockReplyValue::ReceivePayload(decimal_value(unsigned_digits(count))))
        } else {
            (s, MockReplyValue::Reply(parameter_error_line()))
        }
    } else if starts_with(command, set_address_prefix()) {
        if args(8).len() == 4 && all_hex_digits(args(8)) {
            (MockState { address: args(8), ..s }, MockReplyValue::Reply(ok_line()))
        } else {
            (s, MockReplyValue::Reply(parameter_error_line()))
        }
    } else if starts_with(command, get_address_prefix()) {
        (s, MockReplyValue::Reply(address_reply(s.address)))
    } else if starts_with(command, set_destination_prefix()) {
        if args(8).len() == 4 && all_hex_digits(args(8)) {
            (MockState { destination: args(8), ..s }, MockReplyValue::Reply(ok_line()))
        } else {
            (s, MockReplyValue::Reply(parameter_error_line()))
        }
    } else if starts_with(command, get_destination_prefix()) {
        (s, MockReplyValue::Reply(address_reply(s.destination)))
    } else if starts_with(command, config_prefix()) {
        let f = fields(args(7));
        if config_fields_ok(f) {
            // the thirteen numbers are taken even when more fields follow
            (
                MockState { config: config_values(f), ..s },
                MockReplyValue::Reply(
                    if f.len() == 13 {
                        ok_line()
                    } else {
                        parameter_error_line()
                    },
                ),
            )
        } else {
            (s, MockReplyValue::Reply(parameter_error_line()))
        }
    } else {
        (s, MockReplyValue::Reply(command_error_line()))
    }
}

/// Whether `s` starts with `prefix`.
fn has_prefix(s: &[u8], prefix: &[u8]) -> (r: bool)
    ensures
        r == starts_with(s@, prefix@),
{
    if s.len() < prefix.len() {
        return false;
    }
    let mut i: usize = 0;
    while i < prefix.len()
        invariant
            i <= prefix@.len() <= s@.len(),
            forall|k: int| 0 <= k < i ==> s@[k] == prefix@[k],
        decreases prefix@.len() - i,
    {
        if s[i] != prefix[i] {
            assert(s@.subrange(0, prefix@.len() as int)[i as int] != prefix@[i as int]);
            return false;
        }
        i = i + 1;
    }
    assert(s@.subrange(0, prefix@.len() as int) =~= prefix@);
    true
}

/// A radio module as the host sees it over the serial port.
pub struct MockRadio {
    address: Address,
    destination: Address,
    config: Vec<u32>,
}

impl View for MockRadio {
    type V = MockState;

    closed spec fn view(&self) -> MockState {
        MockState { address: self.address@, destination: self.destination@, config: self.config@ }
    }
}

impl MockRadio {
    /// A module with the addresses `0000` and no settings.
    pub fn new() -> (r: MockRadio)
        ensures
            r@.address == seq![0x30u8, 0x30u8, 0x30u8, 0x30u8],
            r@.destination == seq![0x30u8, 0x30u8, 0x30u8, 0x30u8],
            r@.config == Seq::<u32>::empty(),
    {
        MockRadio { address: Address::default(), destination: Address::default(), config: Vec::new() }
    }

    /// The address set with `AT+ADDR`.
    pub fn address(&self) -> (r: &Address)
        ensures
            r@ == self@.address,
    {
        &self.address
    }

    /// The address set with `AT+DEST`.
    pub fn destination(&self) -> (r: &Address)
        ensures
            r@ == self@.destination,
    {
        &self.destination
    }

    /// The settings of the last accepted `AT+CFG`.
    pub fn config(&self) -> (r: &[u32])
        ensures
            r@ == self@.config,
    {
        self.config.as_slice()
    }

    /// Reads the thirteen settings of `AT+CFG=<args>`.
    fn set_config(&mut self, args: &[u8]) -> (r: Vec<u8>)
        ensures
            ({
                let f = fields(args@);
                if config_fields_ok(f) {
                    &&& final(self)@ == (MockState { config: config_values(f), ..old(self)@ })
                    &&& r@ == (if f.len() == 13 {
                        ok_line()
                    } else {
                        parameter_error_line()
                    })
                } else {
                    &&& final(self)@ == old(self)@
                    &&& r@ == parameter_error_line()
                }
            }),
    {
        let ghost f = fields(args@);
        let mut values: Vec<u32> = Vec::new();
        let mut rest: &[u8] = args;
        let mut exhausted = false;
        let ghost mut taken: Seq<Seq<u8>> = Seq::empty();
        let mut k: usize = 0;
        while k < 13
            invariant
                k <= 13,
                k == taken.len(),
                values@.len() == k,
                !exhausted ==> f == taken + fields(rest@),
                exhausted ==> f == taken && k > 0,
                exhausted ==> k == 13,
                forall|j: int| 0 <= j < k ==> is_unsigned(#[trigger] taken[j]) && decimal_value(
                    unsigned_digits(taken[j]),
                ) <= u32::MAX && values@[j] == decimal_value(unsigned_digits(taken[j])),
                f == fields(args@),
            decreases 13 - k,
        {
            let i = find_byte(rest, 0x2C);
            let field = vstd::slice::slice_subrange(rest, 0, i);
            let ghost more = fields(rest@);
            assert(more[0] == field@ && (i < rest@.len() ==> more == seq![field@] + fields(
                rest@.subrange(i + 1, rest@.len() as int),
            )) && (i >= rest@.len() ==> more == seq![field@])) by {
                if i >= rest@.len() {
                    assert(field@ =~= rest@);
                }
            }
            let value = match parse_unsigned(field, u32::MAX) {
                Some(v) => v,
                None => {
                    assert(!config_fields_ok(f)) by {
                        if f.len() >= 13 {
                            assert(f[k as int] == field@);
                        }
                    }
                    let r = vec![0x41, 0x54, 0x2C, 0x45, 0x52, 0x52, 0x3A, 0x50, 0x41, 0x52, 0x41, 0x0D, 0x0A];
                    assert(r@ =~= parameter_error_line());
                    return r;
                },
            };
            values.push(value);
            proof {
                taken = taken.push(field@);
            }
            if i >= rest.len() {
                if k < 12 {
                    assert(f =~= taken);
                    let r = vec![0x41, 0x54, 0x2C, 0x45, 0x52, 0x52, 0x3A, 0x50, 0x41, 0x52, 0x41, 0x0D, 0x0A];
                    assert(r@ =~= parameter_error_line());
                    return r;
                }
                exhausted = true;
                assert(f =~= taken);
            } else {
                rest = vstd::slice::slice_subrange(rest, i + 1, rest.len());
                assert(f =~= taken + fields(rest@));
            }
            k = k + 1;
        }
        assert(config_fields_ok(f)) by {
            assert forall|j: int| 0 <= j < 13 implies is_unsigned(#[trigger] f[j])
                && decimal_value(unsigned_digits(f[j])) <= u32::MAX by {
                assert(f[j] == taken[j]);
            }
        }
        assert(values@ =~= config_values(f)) by {
            assert forall|j: int| 0 <= j < 13 implies values@[j] == config_values(f)[j] by {
                assert(f[j] == taken[j]);
            }
        }
        self.config = values;
        if exhausted {
            assert(f.len() == 13);
            reply_ok()
        } else {
            assert(fields(rest@).len() >= 1) by {
                reveal_with_fuel(fields, 1);
            }
            let r = vec![0x41, 0x54, 0x2C, 0x45, 0x52, 0x52, 0x3A, 0x50, 0x41, 0x52, 0x41, 0x0D, 0x0A];
            assert(r@ =~= parameter_error_line());
            r
        }
    }

    /// The reply `AT,ERR:PARA\r\n`.
    fn parameter_error() -> (r: Vec<u8>)
        ensures
            r@ == parameter_error_line(),
    {
        let r = vec![0x41, 0x54, 0x2C, 0x45, 0x52, 0x52, 0x3A, 0x50, 0x41, 0x52, 0x41, 0x0D, 0x0A];
        assert(r@ =~= parameter_error_line());
        r
    }

    /// `AT,<address>,OK\r\n`.
    fn address_reply(address: &Address) -> (r: Vec<u8>)
        ensures
            r@ == address_reply(address@),
    {
        let mut r: Vec<u8> = vec![0x41, 0x54, 0x2C];
        let mut digits = vstd::slice::slice_to_vec(address.as_ascii_bytes());
        r.append(&mut digits);
        r.push(0x2C);
        r.push(0x4F);
        r.push(0x4B);
        r.push(0x0D);
        r.push(0x0A);
        assert(r@ =~= address_reply(address@));
        r
    }

    /// Answers one command line, given without its `\r\n`.
    pub fn handle_command(&mut self, command: &[u8]) -> (r: MockReply)
        ensures
            final(self)@ == mock_step(old(self)@, command@).0,
            r@ == mock_step(old(self)@, command@).1,
    {
        let n = command.len();
        if n == 2 && command[0] == 0x41 && command[1] == 0x54 {
            assert(command@ =~= at_command());
            return MockReply::Reply(reply_ok());
        }
        assert(command@ != at_command()) by {
            if command@ == at_command() {
                assert(command@[0] == 0x41 && command@[1] == 0x54);
            }
        }
        let send: [u8; 8] = [0x41, 0x54, 0x2B, 0x53, 0x45, 0x4E, 0x44, 0x3D];
        let set_address: [u8; 8] = [0x41, 0x54, 0x2B, 0x41, 0x44, 0x44, 0x52, 0x3D];
        let get_address: [u8; 8] = [0x41, 0x54, 0x2B, 0x41, 0x44, 0x44, 0x52, 0x3F];
        let set_destination: [u8; 8] = [0x41, 0x54, 0x2B, 0x44, 0x45, 0x53, 0x54, 0x3D];
        let get_destination: [u8; 8] = [0x41, 0x54, 0x2B, 0x44, 0x45, 0x53, 0x54, 0x3F];
        let config: [u8; 7] = [0x41, 0x54, 0x2B, 0x43, 0x46, 0x47, 0x3D];
        assert(send@ =~= send_prefix());
        assert(set_address@ =~= set_address_prefix());
        assert(get_address@ =~= get_address_prefix());
        assert(set_destination@ =~= set_destination_prefix());
        assert(get_destination@ =~= get_destination_prefix());
        assert(config@ =~= config_prefix());
        if has_prefix(command, send.as_slice()) {
            let count = vstd::slice::slice_subrange(command, 8, n);
            return match parse_unsigned(count, MAX_PAYLOAD) {
                Some(bytes) if bytes >= 1 => MockReply::ReceivePayload(bytes as usize),
                _ => MockReply::Reply(Self::parameter_error()),
            };
        }
        if has_prefix(command, set_address.as_slice()) {
            let args = vstd::slice::slice_subrange(command, 8, n);
            return match Address::from_ascii(args) {
                Ok(address) => {
                    self.address = address;
                    MockReply::Reply(reply_ok())
                },
                Err(_) => MockReply::Reply(Self::parameter_error()),
            };
        }
        if has_prefix(command, get_address.as_slice()) {
            return MockReply::Reply(Self::address_reply(&self.address));
        }
        if has_prefix(command, set_destination.as_slice()) {
            let args = vstd::slice::slice_subrange(command, 8, n);
            return match Address::from_ascii(args) {
                Ok(address) => {
                    self.destination = address;
                    MockReply::Reply(reply_ok())
                },
                Err(_) => MockReply::Reply(Self::parameter_error()),
            };
        }
        if has_prefix(command, get_destination.as_slice()) {
            return MockReply::Reply(Self::address_reply(&self.destination));
        }
        if has_prefix(command, config.as_slice()) {
            let args = vstd::slice::slice_subrange(command, 7, n);
            return MockReply::Reply(self.set_config(args));
        }
        let r = vec![0x41, 0x54, 0x2C, 0x45, 0x52, 0x52, 0x3A, 0x43, 0x4D, 0x44, 0x0D, 0x0A];
        assert(r@ =~= command_error_line());
        MockReply::Reply(r)
    }
}

} // verus!
