//! Field elements: the 32-byte values used as contract addresses, storage
//! keys, class hashes and block hashes.
//!
//! A field element is held as four 64-bit limbs, most significant first, so
//! that equality is structural and values are freely copyable. A value is
//! well formed when it lies below `2^251`, i.e. when the top limb is below
//! `2^59`; byte strings above that bound do not denote a field element and
//! are rejected by the decoder as corrupt.

use vstd::prelude::*;

verus! {

/// Exclusive upper bound on the most significant limb of a field element:
/// `2^59`, so that the whole value lies below `2^251`.
pub const FELT_HIGH_LIMB_BOUND: u64 = 0x0800_0000_0000_0000;

/// A field element, four 64-bit limbs in big-endian limb order: `l0` holds
/// the most significant 64 bits and `l3` the least significant.
#[derive(Clone, Copy, Debug, PartialEq, Eq, Structural)]
pub struct Felt {
    pub l0: u64,
    pub l1: u64,
    pub l2: u64,
    pub l3: u64,
}

/// A contract address is a field element.
pub type ContractAddress = Felt;

/// A storage key inside a contract's storage space is a field element.
pub type StorageKey = Felt;

/// The hash identifying a contract class is a field element.
pub type ClassHash = Felt;

/// The hash of a block is a field element.
pub type BlockHash = Felt;

impl Felt {
    /// A field element is well formed when its value lies below `2^251`.
    pub open spec fn wf(self) -> bool {
        self.l0 < FELT_HIGH_LIMB_BOUND
    }

    /// The natural (numeric) value of the element.
    pub open spec fn value(self) -> int {
        ((self.l0 * 0x1_0000_0000_0000_0000 + self.l1) * 0x1_0000_0000_0000_0000 + self.l2)
            * 0x1_0000_0000_0000_0000 + self.l3
    }

    /// Numeric strict order, expressed limb by limb.
    pub open spec fn spec_lt(self, other: Self) -> bool {
        ||| self.l0 < other.l0
        ||| (self.l0 == other.l0 && self.l1 < other.l1)
        ||| (self.l0 == other.l0 && self.l1 == other.l1 && self.l2 < other.l2)
        ||| (self.l0 == other.l0 && self.l1 == other.l1 && self.l2 == other.l2
            && self.l3 < other.l3)
    }

    /// The zero element.
    pub fn zero() -> (r: Self)
        ensures
            r.wf(),
            r == (Felt { l0: 0, l1: 0, l2: 0, l3: 0 }),
    {
        Felt { l0: 0, l1: 0, l2: 0, l3: 0 }
    }

    /// Builds a field element from four limbs, most significant first.
    pub fn new(l0: u64, l1: u64, l2: u64, l3: u64) -> (r: Self)
        requires
            l0 < FELT_HIGH_LIMB_BOUND,
        ensures
            r.wf(),
            r == (Felt { l0, l1, l2, l3 }),
    {
        Felt { l0, l1, l2, l3 }
    }

    /// Embeds a 64-bit integer as a (small) field element.
    pub fn from_u64(n: u64) -> (r: Self)
        ensures
            r.wf(),
            r == (Felt { l0: 0, l1: 0, l2: 0, l3: n }),
            r.value() == n,
    {
        Felt { l0: 0, l1: 0, l2: 0, l3: n }
    }

    /// Executable strict comparison; agrees with the numeric order.
    pub fn lt(&self, other: &Self) -> (r: bool)
        ensures
            r == self.spec_lt(*other),
    {
        if self.l0 != other.l0 {
            self.l0 < other.l0
        } else if self.l1 != other.l1 {
            self.l1 < other.l1
        } else if self.l2 != other.l2 {
            self.l2 < other.l2
        } else {
            self.l3 < other.l3
        }
    }
}

/// The limb order is the numeric order: comparing limbs most significant
/// first decides exactly the order of the values the limbs denote.
pub proof fn lemma_spec_lt_is_value_lt(a: Felt, b: Felt)
    ensures
        a.spec_lt(b) <==> a.value() < b.value(),
{
    let m: int = 0x1_0000_0000_0000_0000;
    assert(a.spec_lt(b) <==> a.value() < b.value()) by (nonlinear_arith)
        requires
            m == 0x1_0000_0000_0000_0000,
            a.value() == ((a.l0 * m + a.l1) * m + a.l2) * m + a.l3,
            b.value() == ((b.l0 * m + b.l1) * m + b.l2) * m + b.l3,
            0 <= a.l0 < m && 0 <= a.l1 < m && 0 <= a.l2 < m && 0 <= a.l3 < m,
            0 <= b.l0 < m && 0 <= b.l1 < m && 0 <= b.l2 < m && 0 <= b.l3 < m,
            a.spec_lt(b) == (a.l0 < b.l0 || (a.l0 == b.l0 && a.l1 < b.l1)
                || (a.l0 == b.l0 && a.l1 == b.l1 && a.l2 < b.l2)
                || (a.l0 == b.l0 && a.l1 == b.l1 && a.l2 == b.l2 && a.l3 < b.l3)),
    ;
}

} // verus!
