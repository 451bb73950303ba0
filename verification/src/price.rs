//! Prices as totally ordered integer keys.
//!
//! A price is carried as the bit pattern of an IEEE-754 double, folded so
//! that the unsigned order of the keys is the numeric order of the doubles
//! they stand for: negative values below positive ones, larger magnitudes
//! of negative values lower still, and the two zeros, which are equal as
//! numbers, on one key. The library only ever compares and copies prices,
//! so the key is all it needs; callers convert at the boundary with
//! `f64::to_bits` and `f64::from_bits`.
//!
//! The patterns that are no numbers have keys too, beyond the infinities:
//! above positive infinity with the sign bit clear, below negative infinity
//! with it set. Nothing here tells them from numbers; a caller that wants
//! none of them in a book keeps them out.

use vstd::prelude::*;

verus! {

/// The key of `+0.0`, and the offset that lifts non-negative patterns above
/// the negative ones.
pub const SIGN_BIT: u64 = 0x8000_0000_0000_0000;

/// The key of the most negative finite double.
pub const LOWEST_KEY: u64 = 0x0010_0000_0000_0000;

/// The key of the largest finite double.
pub const HIGHEST_KEY: u64 = 0xFFEF_FFFF_FFFF_FFFF;

/// The key that the pattern of `-0.0` would have next to the negative
/// numbers. No price made from a pattern has it: `-0.0` gets the key of
/// `0.0`.
pub const NEGATIVE_ZERO_KEY: u64 = 0x7FFF_FFFF_FFFF_FFFF;

/// The order-preserving key of a double's bit pattern. The pattern of
/// `-0.0`, which is the sign bit alone, has the key of `0.0`.
pub open spec fn key_of_bits(bits: u64) -> int {
    if bits < SIGN_BIT {
        bits + SIGN_BIT
    } else if bits == SIGN_BIT {
        SIGN_BIT as int
    } else {
        u64::MAX - bits
    }
}

/// The bit pattern that a key stands for.
pub open spec fn bits_of_key(key: u64) -> int {
    if key >= SIGN_BIT {
        key - SIGN_BIT
    } else {
        u64::MAX - key
    }
}

/// A price, ordered by `key`.
#[derive(Clone, Copy, Debug, PartialEq, Eq, Hash, Structural)]
pub struct Price {
    pub key: u64,
}

impl Price {
    /// The price whose double has the bit pattern `bits`. Both zeros give
    /// the price `0.0`.
    pub fn from_bits(bits: u64) -> (p: Price)
        ensures
            p.key == key_of_bits(bits),
            p.key != NEGATIVE_ZERO_KEY,
    {
        if bits < SIGN_BIT {
            Price { key: bits + SIGN_BIT }
        } else if bits == SIGN_BIT {
            Price { key: SIGN_BIT }
        } else {
            Price { key: u64::MAX - bits }
        }
    }

    /// The bit pattern of the double this price stands for.
    pub fn to_bits(&self) -> (bits: u64)
        ensures
            bits == bits_of_key(self.key),
            self.key != NEGATIVE_ZERO_KEY ==> key_of_bits(bits) == self.key,
    {
        if self.key >= SIGN_BIT {
            self.key - SIGN_BIT
        } else {
            u64::MAX - self.key
        }
    }

    /// The price `0.0`, which a book reports until its first trade.
    pub fn zero() -> (p: Price)
        ensures
            p.key == SIGN_BIT,
            p.key == key_of_bits(0),
    {
        Price { key: SIGN_BIT }
    }

    /// The most negative finite price: the high of a bar that has seen no
    /// trade.
    pub fn lowest() -> (p: Price)
        ensures
            p.key == LOWEST_KEY,
            p.key == key_of_bits(0xFFEF_FFFF_FFFF_FFFF),
    {
        Price { key: LOWEST_KEY }
    }

    /// The largest finite price: the low of a bar that has seen no trade.
    pub fn highest() -> (p: Price)
        ensures
            p.key == HIGHEST_KEY,
            p.key == key_of_bits(0x7FEF_FFFF_FFFF_FFFF),
    {
        Price { key: HIGHEST_KEY }
    }

    /// The higher of two prices.
    pub open spec fn spec_max(self, other: Price) -> Price {
        if self.key >= other.key {
            self
        } else {
            other
        }
    }

    /// The lower of two prices.
    pub open spec fn spec_min(self, other: Price) -> Price {
        if self.key <= other.key {
            self
        } else {
            other
        }
    }

    /// The higher of two prices.
    pub fn max(self, other: Price) -> (p: Price)
        ensures
            p == self.spec_max(other),
    {
        if self.key >= other.key {
            self
        } else {
            other
        }
    }

    /// The lower of two prices.
    pub fn min(self, other: Price) -> (p: Price)
        ensures
            p == self.spec_min(other),
    {
        if self.key <= other.key {
            self
        } else {
            other
        }
    }
}

/// Converting a bit pattern to a key and back gives the pattern again,
/// but for `-0.0`, which comes back as `0.0`; and converting a key to a
/// pattern and back gives the key again, but for the one key that no
/// pattern has.
pub proof fn lemma_key_round_trip(x: u64)
    ensures
        0 <= key_of_bits(x) <= u64::MAX,
        0 <= bits_of_key(x) <= u64::MAX,
        key_of_bits(x) != NEGATIVE_ZERO_KEY,
        x != SIGN_BIT ==> bits_of_key(key_of_bits(x) as u64) == x,
        bits_of_key(key_of_bits(SIGN_BIT) as u64) == 0,
        x != NEGATIVE_ZERO_KEY ==> key_of_bits(bits_of_key(x) as u64) == x,
{
}

/// The keys order bit patterns as the doubles are ordered: among patterns
/// with a clear sign bit a larger pattern has a larger key, among patterns
/// with the sign bit set a larger pattern has a smaller key, and a pattern
/// with the sign bit set lies below every pattern without it, but for
/// `-0.0`, which lies with `0.0`.
pub proof fn lemma_key_order(a: u64, b: u64)
    ensures
        a < SIGN_BIT && b < SIGN_BIT ==> (key_of_bits(a) < key_of_bits(b) <==> a < b),
        a >= SIGN_BIT && b >= SIGN_BIT ==> (key_of_bits(a) < key_of_bits(b) <==> a > b),
        a > SIGN_BIT && b < SIGN_BIT ==> key_of_bits(a) < key_of_bits(b),
        key_of_bits(SIGN_BIT) == key_of_bits(0),
        key_of_bits(a) == key_of_bits(b) <==> a == b || (a == SIGN_BIT && b == 0) || (a == 0 && b
            == SIGN_BIT),
{
}

} // verus!
