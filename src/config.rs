//! The radio settings sent with `AT+CFG=`, and decimal numbers in ASCII.
use vstd::prelude::*;

verus! {

/// The decimal digits of `n` in ASCII, most significant first, without leading zeros.
pub open spec fn decimal(n: nat) -> Seq<u8>
    decreases n,
{
    if n < 10 {
        seq![(n + 0x30) as u8]
    } else {
        decimal(n / 10).push((n % 10 + 0x30) as u8)
    }
}

/// Appends the decimal digits of `n` to `out`.
pub fn push_decimal(out: &mut Vec<u8>, n: u64)
    ensures
        final(out)@ == old(out)@ + decimal(n as nat),
    decreases n,
{
    if n >= 10 {
        push_decimal(out, n / 10);
    }
    out.push((n % 10) as u8 + 0x30);
}

/// The numbers written one after the other in decimal, separated by commas.
pub open spec fn comma_separated(values: Seq<nat>) -> Seq<u8>
    decreases values.len(),
{
    if values.len() == 0 {
        Seq::empty()
    } else if values.len() == 1 {
        decimal(values[0])
    } else {
        comma_separated(values.drop_last()) + seq![0x2Cu8] + decimal(values.last())
    }
}

#[derive(Clone, Copy, PartialEq, Eq, Debug, Structural)]
pub enum HeaderMode {
    Explicit,
    Implicit,
}

impl HeaderMode {
    /// The number the radio uses for the mode.
    pub open spec fn spec_value(self) -> nat {
        match self {
            HeaderMode::Explicit => 0,
            HeaderMode::Implicit => 1,
        }
    }

    /// The number the radio uses for the mode: `0` explicit, `1` implicit.
    pub fn value(&self) -> (r: u8)
        ensures
            r == self.spec_value(),
    {
        match self {
            HeaderMode::Explicit => 0,
            HeaderMode::Implicit => 1,
        }
    }
}

#[derive(Clone, Copy, PartialEq, Eq, Debug, Structural)]
pub enum ReceiveMode {
    Continue,
    Single,
}

impl ReceiveMode {
    /// The number the radio uses for the mode.
    pub open spec fn spec_value(self) -> nat {
        match self {
            ReceiveMode::Continue => 0,
            ReceiveMode::Single => 1,
        }
    }

    /// The number the radio uses for the mode: `0` continuous, `1` single.
    pub fn value(&self) -> (r: u8)
        ensures
            r == self.spec_value(),
    {
        match self {
            ReceiveMode::Continue => 0,
            ReceiveMode::Single => 1,
        }
    }
}

/// `1` for true, `0` for false.
pub open spec fn flag_value(b: bool) -> nat {
    if b {
        1
    } else {
        0
    }
}

/// The radio's value for a yes/no setting: `1` or `0`.
pub fn bool_to_digit(b: bool) -> (r: u8)
    ensures
        r == flag_value(b),
{
    if b {
        1
    } else {
        0
    }
}

/// The radio settings.
#[derive(Clone, Copy, Debug)]
pub struct ATConfig {
    pub frequency: u32,
    pub power: u8,
    pub bandwidth: u8,
    pub spreading_factor: u8,
    pub error_coding: u8,
    pub crc: bool,
    pub header_mode: HeaderMode,
    pub receive_mode: ReceiveMode,
    pub frequency_hop: bool,
    pub hop_period: u32,
    pub receive_timeout: u16,
    pub payload_length: u8,
    pub preamble_length: u16,
}

impl ATConfig {
    /// The thirteen settings in the order the radio takes them.
    pub open spec fn values(self) -> Seq<nat> {
        seq![
            self.frequency as nat,
            self.power as nat,
            self.bandwidth as nat,
            self.spreading_factor as nat,
            self.error_coding as nat,
            flag_value(self.crc),
            self.header_mode.spec_value(),
            self.receive_mode.spec_value(),
            flag_value(self.frequency_hop),
            self.hop_period as nat,
            self.receive_timeout as nat,
            self.payload_length as nat,
            self.preamble_length as nat,
        ]
    }

    /// The settings as the argument of `AT+CFG=`: thirteen decimal numbers
    /// separated by commas.
    pub fn to_bytes(&self) -> (r: Vec<u8>)
        ensures
            r@ == comma_separated(self.values()),
    {
        let values: [u64; 13] = [
            self.frequency as u64,
            self.power as u64,
            self.bandwidth as u64,
            self.spreading_factor as u64,
            self.error_coding as u64,
            bool_to_digit(self.crc) as u64,
            self.header_mode.value() as u64,
            self.receive_mode.value() as u64,
            bool_to_digit(self.frequency_hop) as u64,
            self.hop_period as u64,
            self.receive_timeout as u64,
            self.payload_length as u64,
            self.preamble_length as u64,
        ];
        let ghost expected = self.values();
        assert(values@.map_values(|v: u64| v as nat) =~= expected);
        let mut out: Vec<u8> = Vec::new();
        let mut i: usize = 0;
        while i < 13
            invariant
                i <= 13,
                values@.len() == 13,
                expected.len() == 13,
                forall|k: int| 0 <= k < 13 ==> #[trigger] expected[k] == values@[k] as nat,
                out@ == comma_separated(expected.subrange(0, i as int)),
            decreases 13 - i,
        {
            assert(expected.subrange(0, i + 1).drop_last() =~= expected.subrange(0, i as int));
            if i > 0 {
                out.push(0x2C);
            }
            push_decimal(&mut out, values[i]);
            assert(expected[i as int] == values@[i as int] as nat);
            i = i + 1;
        }
        assert(expected.subrange(0, 13) =~= expected);
        out
    }
}

} // verus!
