//! Fixed-width value types: the 256-bit machine word and the 160-bit
//! account address, represented as plain unsigned limbs.

use vstd::prelude::*;

verus! {

/// A 256-bit machine word, split into a high and a low 128-bit limb.
/// Every value the builder records into an operation container is a `Word`.
#[derive(Clone, Copy, Debug, Hash, PartialEq, Eq, Structural)]
pub struct Word {
    /// The most significant 128 bits.
    pub hi: u128,
    /// The least significant 128 bits.
    pub lo: u128,
}

/// The all-zero word, the defined initial value of every resource key
/// that has not been written yet.
pub open spec fn zero_word() -> Word {
    Word { hi: 0, lo: 0 }
}

impl Word {
    /// The all-zero word.
    pub fn zero() -> (r: Word)
        ensures
            r == zero_word(),
    {
        Word { hi: 0, lo: 0 }
    }

    /// A word from a small unsigned value.
    pub fn from_u64(v: u64) -> (r: Word)
        ensures
            r == (Word { hi: 0, lo: v as u128 }),
    {
        Word { hi: 0, lo: v as u128 }
    }
}

/// A 160-bit account address: a high 32-bit limb over a low 128-bit limb.
#[derive(Clone, Copy, Debug, Hash, PartialEq, Eq, Structural)]
pub struct Address {
    /// The most significant 32 bits.
    pub hi: u32,
    /// The least significant 128 bits.
    pub lo: u128,
}

impl Address {
    /// The word an address widens to, with the upper 96 bits zero.
    pub open spec fn word(self) -> Word {
        Word { hi: self.hi as u128, lo: self.lo }
    }

    /// Widen the address to a full machine word.
    pub fn to_word(&self) -> (r: Word)
        ensures
            r == self.word(),
    {
        Word { hi: self.hi as u128, lo: self.lo }
    }
}

} // verus!
