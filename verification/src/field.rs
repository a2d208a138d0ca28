//! Field elements as the engine carries them.

use vstd::prelude::*;

verus! {

/// A field element (a hash, a commitment, a nonce, a key coordinate), held as
/// the 256 bits of its canonical little-endian encoding: `lo` is the low half.
///
/// The engine never computes with field elements. It stores them, hands them
/// on and compares them.
#[derive(Clone, Copy, Debug, PartialEq, Eq, Hash, Structural)]
pub struct Field {
    pub lo: u128,
    pub hi: u128,
}

impl Field {
    /// The integer that the 256 bits encode.
    pub open spec fn value(self) -> nat {
        (self.lo as nat) + (self.hi as nat) * 0x1_0000_0000_0000_0000_0000_0000_0000_0000
    }

    /// The element with the given halves.
    pub fn new(lo: u128, hi: u128) -> (f: Field)
        ensures
            f == (Field { lo, hi }),
    {
        Field { lo, hi }
    }

    /// The zero element, which is also the hash that an empty ledger starts from.
    pub fn zero() -> (f: Field)
        ensures
            f == (Field { lo: 0, hi: 0 }),
            f.value() == 0,
    {
        Field { lo: 0, hi: 0 }
    }

    /// The element whose value is the given byte.
    pub fn from_u8(byte: u8) -> (f: Field)
        ensures
            f == (Field { lo: byte as u128, hi: 0 }),
            f.value() == byte,
    {
        Field { lo: byte as u128, hi: 0 }
    }
}

impl Default for Field {
    /// The zero element.
    fn default() -> (f: Field)
        ensures
            f == (Field { lo: 0, hi: 0 }),
    {
        Field { lo: 0, hi: 0 }
    }
}

} // verus!
