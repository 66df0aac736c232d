//! An address as the radio stores it for `AT+ADDR` and `AT+DEST`: exactly four
//! uppercase hex digits, `FFFF` included.
use vstd::prelude::*;

use crate::error::Error;
use crate::hex::{all_hex_digits, is_hex_digit};

verus! {

/// Four uppercase ASCII hex digits.
#[derive(Debug)]
pub struct Address {
    bytes: [u8; 4],
}

impl View for Address {
    type V = Seq<u8>;

    closed spec fn view(&self) -> Seq<u8> {
        self.bytes@
    }
}

impl Address {
    /// The address spelled by `ascii`, which must be four uppercase hex digits.
    pub fn from_ascii(ascii: &[u8]) -> (r: Result<Address, Error>)
        ensures
            match r {
                Ok(a) => ascii@.len() == 4 && all_hex_digits(ascii@) && a@ == ascii@,
                Err(e) => e == Error::InvalidData && !(ascii@.len() == 4 && all_hex_digits(ascii@)),
            },
    {
        if ascii.len() != 4 {
            return Err(Error::InvalidData);
        }
        let mut i: usize = 0;
        while i < 4
            invariant
                i <= 4,
                ascii@.len() == 4,
                forall|k: int| 0 <= k < i ==> #[trigger] is_hex_digit(ascii@[k]),
            decreases 4 - i,
        {
            let byte = ascii[i];
            if !(0x30 <= byte && byte <= 0x39) && !(0x41 <= byte && byte <= 0x46) {
                assert(!is_hex_digit(ascii@[i as int]));
                return Err(Error::InvalidData);
            }
            i = i + 1;
        }
        let bytes = [ascii[0], ascii[1], ascii[2], ascii[3]];
        assert(bytes@ =~= ascii@);
        Ok(Address { bytes })
    }

    /// The four ASCII digits.
    pub fn as_ascii_bytes(&self) -> (r: &[u8])
        ensures
            r@ == self@,
    {
        self.bytes.as_slice()
    }
}

impl Default for Address {
    /// `0000`.
    fn default() -> (r: Address)
        ensures
            r@ == seq![0x30u8, 0x30u8, 0x30u8, 0x30u8],
    {
        let r = Address { bytes: [0x30, 0x30, 0x30, 0x30] };
        assert(r@ =~= seq![0x30u8, 0x30u8, 0x30u8, 0x30u8]);
        r
    }
}

} // verus!
