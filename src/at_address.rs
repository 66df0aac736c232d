//! Node addresses: four uppercase ASCII hex digits, with `FFFF` kept for broadcast.
use vstd::prelude::*;

use crate::hex::{all_hex_digits, is_hex_digit};

verus! {

/// `b` is one of the ASCII characters `a`-`f`.
pub open spec fn is_lower_hex_digit(b: u8) -> bool {
    0x61 <= b <= 0x66
}

/// `b` with a lowercase hex letter turned into its uppercase form.
pub open spec fn upper_hex(b: u8) -> u8 {
    if is_lower_hex_digit(b) {
        (b - 0x20) as u8
    } else {
        b
    }
}

/// Every byte of `s` is a hex digit of either case.
pub open spec fn all_any_case_hex_digits(s: Seq<u8>) -> bool {
    forall|i: int| 0 <= i < s.len() ==> is_hex_digit(#[trigger] s[i]) || is_lower_hex_digit(s[i])
}

/// `s` with every lowercase hex letter made uppercase.
pub open spec fn normalized(s: Seq<u8>) -> Seq<u8> {
    s.map_values(|b: u8| upper_hex(b))
}

/// The four bytes `FFFF`.
pub open spec fn broadcast_bytes() -> Seq<u8> {
    seq![0x46u8, 0x46u8, 0x46u8, 0x46u8]
}

/// Four uppercase hex digits other than `FFFF`: the address of a single node.
pub open spec fn is_unicast(s: Seq<u8>) -> bool {
    s.len() == 4 && all_hex_digits(s) && s != broadcast_bytes()
}

/// The address of a radio: four uppercase ASCII hex digits.
#[derive(Clone, Copy, Debug)]
pub struct ATAddress([u8; 4]);

impl View for ATAddress {
    type V = Seq<u8>;

    closed spec fn view(&self) -> Seq<u8> {
        self.0@
    }
}

/// Why four bytes are not the address of a node.
#[derive(Clone, Copy, Debug, PartialEq, Eq, Structural)]
pub enum ATAddressError {
    /// A byte is not a hex digit.
    InvalidAddress,
    /// The bytes spell the broadcast address.
    BroadcastAddress,
}

/// The broadcast address `FFFF`, which every node receives.
pub closed spec fn broadcast_address() -> ATAddress {
    ATAddress([0x46u8, 0x46u8, 0x46u8, 0x46u8])
}

/// The address spelled by the first four bytes of `s`.
pub closed spec fn address_from(s: Seq<u8>) -> ATAddress {
    ATAddress([s[0], s[1], s[2], s[3]])
}

/// An address is the one spelled by its own digits.
pub proof fn lemma_address_from(a: ATAddress, s: Seq<u8>)
    requires
        s.len() == 4,
    ensures
        address_from(s)@ == s,
        a@ == s ==> a == address_from(s),
{
    assert(address_from(s)@ =~= s);
    a.lemma_view_injective(address_from(s));
}

impl ATAddress {
    /// The address that every node receives: `FFFF`.
    pub fn broadcast() -> (r: ATAddress)
        ensures
            r == broadcast_address(),
            r@ == broadcast_bytes(),
    {
        let r = ATAddress([0x46, 0x46, 0x46, 0x46]);
        assert(r@ =~= broadcast_bytes());
        r
    }

    /// Every address has four bytes.
    pub proof fn lemma_len(self)
        ensures
            self@.len() == 4,
    {
    }

    /// Two addresses with the same digits are the same address.
    pub proof fn lemma_view_injective(self, other: ATAddress)
        ensures
            self@ == other@ ==> self == other,
    {
        if self@ == other@ {
            assert(self.0 =~= other.0);
        }
    }

    /// The address of a single node spelled by `data`, where lowercase hex letters
    /// count as uppercase ones.
    pub fn new(data: [u8; 4]) -> (r: Result<ATAddress, ATAddressError>)
        ensures
            !all_any_case_hex_digits(data@) ==> r == Err::<ATAddress, ATAddressError>(
                ATAddressError::InvalidAddress,
            ),
            all_any_case_hex_digits(data@) && normalized(data@) == broadcast_bytes() ==> r == Err::<
                ATAddress,
                ATAddressError,
            >(ATAddressError::BroadcastAddress),
            all_any_case_hex_digits(data@) && normalized(data@) != broadcast_bytes() ==> (r matches Ok(
                a,
            ) && a@ == normalized(data@) && is_unicast(a@)),
    {
        let mut data = data;
        if !validate_uppercase_hex_digits(&mut data) {
            return Err(ATAddressError::InvalidAddress);
        }
        if data[0] == 0x46 && data[1] == 0x46 && data[2] == 0x46 && data[3] == 0x46 {
            assert(data@ =~= broadcast_bytes());
            return Err(ATAddressError::BroadcastAddress);
        }
        assert(data@ != broadcast_bytes()) by {
            if data@ == broadcast_bytes() {
                assert(data@[0] == 0x46 && data@[1] == 0x46 && data@[2] == 0x46 && data@[3]
                    == 0x46);
            }
        }
        Ok(ATAddress(data))
    }

    /// The four ASCII digits of the address.
    pub fn as_bytes(&self) -> (r: &[u8])
        ensures
            r@ == self@,
    {
        self.0.as_slice()
    }
}

impl PartialEq for ATAddress {
    fn eq(&self, other: &ATAddress) -> (r: bool)
        ensures
            r == (*self == *other),
    {
        let r = self.0[0] == other.0[0] && self.0[1] == other.0[1] && self.0[2] == other.0[2]
            && self.0[3] == other.0[3];
        proof {
            if r {
                assert(self.0@ =~= other.0@);
                self.lemma_view_injective(*other);
            }
        }
        r
    }
}

impl vstd::std_specs::cmp::PartialEqSpecImpl for ATAddress {
    open spec fn obeys_eq_spec() -> bool {
        true
    }

    open spec fn eq_spec(&self, other: &ATAddress) -> bool {
        *self == *other
    }
}

impl Eq for ATAddress {

}

/// The digits of a node's address are accepted again as they stand: they are
/// hex digits, already uppercase, and not `FFFF`, so `ATAddress::new` on
/// `as_bytes` gives back the same address.
pub proof fn lemma_address_round_trip(a: ATAddress)
    requires
        is_unicast(a@),
    ensures
        all_any_case_hex_digits(a@),
        normalized(a@) == a@,
        normalized(a@) != broadcast_bytes(),
        forall|b: ATAddress| #[trigger] (b@) == normalized(a@) ==> b == a,
{
    assert(normalized(a@) =~= a@) by {
        assert forall|i: int| 0 <= i < a@.len() implies #[trigger] normalized(a@)[i] == a@[i] by {
            assert(is_hex_digit(a@[i]));
        }
    }
    assert forall|i: int| 0 <= i < a@.len() implies is_hex_digit(#[trigger] a@[i])
        || is_lower_hex_digit(a@[i]) by {
        assert(is_hex_digit(a@[i]));
    }
    assert forall|b: ATAddress| #[trigger] (b@) == normalized(a@) implies b == a by {
        b.lemma_view_injective(a);
    }
}

/// Checks that every byte is a hex digit and makes lowercase letters uppercase.
fn validate_uppercase_hex_digits(chars: &mut [u8; 4]) -> (r: bool)
    ensures
        r == all_any_case_hex_digits(old(chars)@),
        r ==> final(chars)@ == normalized(old(chars)@),
        r ==> all_hex_digits(final(chars)@),
{
    let ghost given = chars@;
    let mut i: usize = 0;
    while i < 4
        invariant
            i <= 4,
            given == old(chars)@,
            given.len() == 4,
            chars@.len() == 4,
            forall|k: int| 0 <= k < i ==> is_hex_digit(#[trigger] given[k]) || is_lower_hex_digit(given[k]),
            forall|k: int| 0 <= k < i ==> #[trigger] chars@[k] == upper_hex(given[k]),
            forall|k: int| i <= k < 4 ==> #[trigger] chars@[k] == given[k],
        decreases 4 - i,
    {
        let c = chars[i];
        if 0x30 <= c && c <= 0x39 || 0x41 <= c && c <= 0x46 {
        } else if 0x61 <= c && c <= 0x66 {
            chars[i] = c - 0x20;
        } else {
            assert(chars@[i as int] == given[i as int]);
            assert(!all_any_case_hex_digits(given)) by {
                assert(!(is_hex_digit(given[i as int]) || is_lower_hex_digit(given[i as int])));
            }
            return false;
        }
        i = i + 1;
    }
    assert(chars@ =~= normalized(given));
    assert forall|k: int| 0 <= k < 4 implies #[trigger] is_hex_digit(chars@[k]) by {
        assert(is_hex_digit(given[k]) || is_lower_hex_digit(given[k]));
    }
    true
}

} // verus!
