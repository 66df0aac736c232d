//! Fixed-width unsigned integers as uppercase, big-endian ASCII hex.
use vstd::prelude::*;

use vstd::arithmetic::div_mod::{lemma_fundamental_div_mod, lemma_multiply_divide_lt};

use crate::error::Error;

verus! {

/// `b` is one of the ASCII characters `0`-`9` or `A`-`F`.
pub open spec fn is_hex_digit(b: u8) -> bool {
    (0x30 <= b <= 0x39) || (0x41 <= b <= 0x46)
}

/// Every byte of `s` is an uppercase hex digit.
pub open spec fn all_hex_digits(s: Seq<u8>) -> bool {
    forall|i: int| 0 <= i < s.len() ==> #[trigger] is_hex_digit(s[i])
}

/// The value of an uppercase hex digit.
pub open spec fn digit_value(b: u8) -> nat {
    if 0x30 <= b <= 0x39 {
        (b - 0x30) as nat
    } else {
        (b - 0x41 + 10) as nat
    }
}

/// The uppercase hex digit of a value below 16.
pub open spec fn digit_char(d: nat) -> u8 {
    if d < 10 {
        (d + 0x30) as u8
    } else {
        (d - 10 + 0x41) as u8
    }
}

/// The number that a string of hex digits spells, most significant digit first.
pub open spec fn hex_value(s: Seq<u8>) -> nat
    decreases s.len(),
{
    if s.len() == 0 {
        0
    } else {
        hex_value(s.drop_last()) * 16 + digit_value(s.last())
    }
}

/// `16` to the power `width`: the first number that `width` hex digits cannot spell.
pub open spec fn pow16(width: nat) -> nat
    decreases width,
{
    if width == 0 {
        1
    } else {
        16 * pow16((width - 1) as nat)
    }
}

/// The lowest `width` hex digits of `n`, most significant first.
pub open spec fn hex_encoding(n: nat, width: nat) -> Seq<u8>
    decreases width,
{
    if width == 0 {
        Seq::empty()
    } else {
        hex_encoding(n / 16, (width - 1) as nat).push(digit_char(n % 16))
    }
}

/// An unsigned integer type that can be written as a fixed number of hex digits.
pub trait Integer: Copy + Sized {
    /// How many hex digits the largest value of the type takes.
    spec fn spec_hex_digits() -> nat;

    /// The value as a mathematical number.
    spec fn as_nat(self) -> nat;

    fn hex_digits() -> (n: usize)
        ensures
            n == Self::spec_hex_digits(),
            1 <= n <= 8,
    ;

    fn zero() -> (r: Self)
        ensures
            r.as_nat() == 0,
    ;

    /// Appends one hex digit at the low end: `16 * self + digit`.
    fn push_digit(self, digit: u8) -> (r: Self)
        requires
            digit < 16,
            self.as_nat() * 16 + digit < pow16(Self::spec_hex_digits()),
        ensures
            r.as_nat() == self.as_nat() * 16 + digit,
    ;

    /// The lowest hex digit's value.
    fn low_digit(self) -> (d: u8)
        ensures
            d as nat == self.as_nat() % 16,
    ;

    /// Drops the lowest hex digit: `self / 16`.
    fn drop_low_digit(self) -> (r: Self)
        ensures
            r.as_nat() == self.as_nat() / 16,
    ;

    /// Every value fits in the type's number of hex digits.
    proof fn lemma_fits(self)
        ensures
            self.as_nat() < pow16(Self::spec_hex_digits()),
    ;
}

impl Integer for u8 {
    open spec fn spec_hex_digits() -> nat {
        2
    }

    open spec fn as_nat(self) -> nat {
        self as nat
    }

    fn hex_digits() -> (n: usize) {
        2
    }

    fn zero() -> (r: u8) {
        0
    }

    fn push_digit(self, digit: u8) -> (r: u8) {
        proof {
            reveal_with_fuel(pow16, 3);
        }
        self * 16 + digit
    }

    fn low_digit(self) -> (d: u8) {
        self % 16
    }

    fn drop_low_digit(self) -> (r: u8) {
        self / 16
    }

    proof fn lemma_fits(self) {
        reveal_with_fuel(pow16, 3);
    }
}

impl Integer for u16 {
    open spec fn spec_hex_digits() -> nat {
        4
    }

    open spec fn as_nat(self) -> nat {
        self as nat
    }

    fn hex_digits() -> (n: usize) {
        4
    }

    fn zero() -> (r: u16) {
        0
    }

    fn push_digit(self, digit: u8) -> (r: u16) {
        proof {
            reveal_with_fuel(pow16, 5);
        }
        self * 16 + digit as u16
    }

    fn low_digit(self) -> (d: u8) {
        (self % 16) as u8
    }

    fn drop_low_digit(self) -> (r: u16) {
        self / 16
    }

    proof fn lemma_fits(self) {
        reveal_with_fuel(pow16, 5);
    }
}

impl Integer for u32 {
    open spec fn spec_hex_digits() -> nat {
        8
    }

    open spec fn as_nat(self) -> nat {
        self as nat
    }

    fn hex_digits() -> (n: usize) {
        8
    }

    fn zero() -> (r: u32) {
        0
    }

    fn push_digit(self, digit: u8) -> (r: u32) {
        proof {
            reveal_with_fuel(pow16, 9);
        }
        self * 16 + digit as u32
    }

    fn low_digit(self) -> (d: u8) {
        (self % 16) as u8
    }

    fn drop_low_digit(self) -> (r: u32) {
        self / 16
    }

    proof fn lemma_fits(self) {
        reveal_with_fuel(pow16, 9);
    }
}

/// `n` with its lowest `count` hex digits dropped.
pub open spec fn drop_digits(n: nat, count: nat) -> nat
    decreases count,
{
    if count == 0 {
        n
    } else {
        drop_digits(n / 16, (count - 1) as nat)
    }
}

proof fn lemma_hex_value_bound(s: Seq<u8>)
    requires
        all_hex_digits(s),
    ensures
        hex_value(s) < pow16(s.len()),
    decreases s.len(),
{
    if s.len() > 0 {
        assert(is_hex_digit(s[s.len() - 1]));
        assert(all_hex_digits(s.drop_last())) by {
            assert forall|i: int| 0 <= i < s.drop_last().len() implies #[trigger] is_hex_digit(
                s.drop_last()[i],
            ) by {
                assert(is_hex_digit(s[i]));
            }
        }
        lemma_hex_value_bound(s.drop_last());
    }
}

proof fn lemma_pow16_monotone(a: nat, b: nat)
    requires
        a <= b,
    ensures
        pow16(a) <= pow16(b),
    decreases b,
{
    if a < b {
        lemma_pow16_monotone(a, (b - 1) as nat);
    }
}

proof fn lemma_drop_one_more(n: nat, count: nat)
    ensures
        drop_digits(n, count) / 16 == drop_digits(n, count + 1),
    decreases count,
{
    reveal_with_fuel(drop_digits, 2);
    if count > 0 {
        lemma_drop_one_more(n / 16, (count - 1) as nat);
    }
}

proof fn lemma_encoding_front(n: nat, count: nat)
    ensures
        hex_encoding(n, count + 1) == seq![digit_char(drop_digits(n, count) % 16)] + hex_encoding(
            n,
            count,
        ),
    decreases count,
{
    if count > 0 {
        lemma_encoding_front(n / 16, (count - 1) as nat);
        assert(hex_encoding(n, count + 1) =~= seq![digit_char(drop_digits(n, count) % 16)]
            + hex_encoding(n, count));
    } else {
        reveal_with_fuel(hex_encoding, 2);
        assert(hex_encoding(n, 1) =~= seq![digit_char(n % 16)]);
    }
}

/// Encoding gives exactly `width` uppercase hex digits, and reading them back
/// gives the number again whenever it fits in `width` digits.
pub proof fn lemma_hex_round_trip(n: nat, width: nat)
    requires
        n < pow16(width),
    ensures
        hex_encoding(n, width).len() == width,
        all_hex_digits(hex_encoding(n, width)),
        hex_value(hex_encoding(n, width)) == n,
    decreases width,
{
    if width > 0 {
        let w1 = (width - 1) as nat;
        lemma_multiply_divide_lt(n as int, 16, pow16(w1) as int);
        lemma_fundamental_div_mod(n as int, 16);
        lemma_hex_round_trip(n / 16, w1);
        let e = hex_encoding(n, width);
        assert(e.drop_last() =~= hex_encoding(n / 16, w1));
        assert forall|i: int| 0 <= i < e.len() implies #[trigger] is_hex_digit(e[i]) by {
            if i < e.len() - 1 {
                assert(is_hex_digit(hex_encoding(n / 16, w1)[i]));
            }
        }
    }
}

/// The value of one ASCII hex digit, which must be `0`-`9` or `A`-`F`.
fn parse_ascii_hex_digit(ascii_digit: u8) -> (r: Result<u8, Error>)
    ensures
        r == (if is_hex_digit(ascii_digit) {
            Ok::<u8, Error>(digit_value(ascii_digit) as u8)
        } else {
            Err::<u8, Error>(Error::InvalidData)
        }),
{
    if 0x30 <= ascii_digit && ascii_digit <= 0x39 {
        Ok(ascii_digit - 0x30)
    } else if 0x41 <= ascii_digit && ascii_digit <= 0x46 {
        Ok(ascii_digit - 0x41 + 10)
    } else {
        Err(Error::InvalidData)
    }
}

/// Reads a number written in at most as many uppercase hex digits as `I` has.
/// An empty input reads as zero.
pub fn parse_ascii_hex<I: Integer>(ascii_data: &[u8]) -> (r: Result<I, Error>)
    ensures
        match r {
            Ok(n) => ascii_data@.len() <= I::spec_hex_digits() && all_hex_digits(ascii_data@)
                && n.as_nat() == hex_value(ascii_data@),
            Err(e) => e == Error::InvalidData && !(ascii_data@.len() <= I::spec_hex_digits()
                && all_hex_digits(ascii_data@)),
        },
{
    let width = I::hex_digits();
    if ascii_data.len() > width {
        return Err(Error::InvalidData);
    }
    let mut acc = I::zero();
    let mut i: usize = 0;
    while i < ascii_data.len()
        invariant
            i <= ascii_data@.len() <= width,
            width == I::spec_hex_digits(),
            all_hex_digits(ascii_data@.subrange(0, i as int)),
            acc.as_nat() == hex_value(ascii_data@.subrange(0, i as int)),
        decreases ascii_data@.len() - i,
    {
        let ascii_digit = ascii_data[i];
        let digit = match parse_ascii_hex_digit(ascii_digit) {
            Ok(d) => d,
            Err(e) => {
                assert(!all_hex_digits(ascii_data@)) by {
                    assert(!is_hex_digit(ascii_data@[i as int]));
                }
                return Err(e);
            },
        };
        let ghost prefix = ascii_data@.subrange(0, i as int);
        let ghost next = ascii_data@.subrange(0, i + 1);
        assert(next.drop_last() =~= prefix);
        assert(all_hex_digits(next)) by {
            assert forall|k: int| 0 <= k < next.len() implies #[trigger] is_hex_digit(next[k]) by {
                if k < i {
                    assert(is_hex_digit(prefix[k]));
                }
            }
        }
        proof {
            lemma_hex_value_bound(next);
            lemma_pow16_monotone(next.len(), width as nat);
        }
        acc = acc.push_digit(digit);
        i = i + 1;
    }
    assert(ascii_data@.subrange(0, i as int) =~= ascii_data@);
    Ok(acc)
}

/// The ASCII character of a digit value below 16.
fn encode_ascii_hex_digit(digit: u8) -> (r: u8)
    requires
        digit < 16,
    ensures
        r == digit_char(digit as nat),
{
    if digit <= 9 {
        digit + 0x30
    } else {
        digit - 10 + 0x41
    }
}

/// Writes `number` as exactly as many uppercase hex digits as `I` has, most
/// significant first.
pub fn encode_ascii_hex<I: Integer>(number: I) -> (r: Vec<u8>)
    ensures
        r@ == hex_encoding(number.as_nat(), I::spec_hex_digits()),
{
    let width = I::hex_digits();
    let mut ascii_data: Vec<u8> = Vec::with_capacity(width);
    let mut rest = number;
    let mut i: usize = 0;
    while i < width
        invariant
            i <= width,
            width == I::spec_hex_digits(),
            rest.as_nat() == drop_digits(number.as_nat(), i as nat),
            ascii_data@ == hex_encoding(number.as_nat(), i as nat),
        decreases width - i,
    {
        let digit = rest.low_digit();
        let ascii_digit = encode_ascii_hex_digit(digit);
        proof {
            lemma_encoding_front(number.as_nat(), i as nat);
            lemma_drop_one_more(number.as_nat(), i as nat);
        }
        ascii_data.insert(0, ascii_digit);
        rest = rest.drop_low_digit();
        i = i + 1;
    }
    ascii_data
}

} // verus!
