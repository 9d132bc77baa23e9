//! 256-bit unsigned integers as four little-endian 64-bit limbs.

use vstd::bytes::{spec_u64_from_le_bytes, u64_from_le_bytes};
use vstd::prelude::*;
use vstd::slice::slice_subrange;

verus! {

/// The integer that 32 bytes stand for, least significant byte first.
pub open spec fn le_value(s: Seq<u8>) -> nat {
    (spec_u64_from_le_bytes(s.subrange(0, 8)) as nat) + (spec_u64_from_le_bytes(
        s.subrange(8, 16),
    ) as nat) * pow2_64() + (spec_u64_from_le_bytes(s.subrange(16, 24)) as nat) * pow2_128() + (
    spec_u64_from_le_bytes(s.subrange(24, 32)) as nat) * pow2_192()
}

/// Two to the power 64.
pub open spec fn pow2_64() -> nat {
    0x1_0000_0000_0000_0000nat
}

/// Two to the power 128.
pub open spec fn pow2_128() -> nat {
    0x1_0000_0000_0000_0000_0000_0000_0000_0000nat
}

/// Two to the power 192.
pub open spec fn pow2_192() -> nat {
    0x1_0000_0000_0000_0000_0000_0000_0000_0000_0000_0000_0000_0000nat
}

/// An unsigned integer below two to the power 256, least significant limb first.
#[derive(Clone, Copy, Debug, PartialEq, Eq, Structural)]
pub struct U256 {
    pub l0: u64,
    pub l1: u64,
    pub l2: u64,
    pub l3: u64,
}

impl U256 {
    /// The integer that the four limbs stand for.
    pub open spec fn value(&self) -> nat {
        (self.l0 as nat) + (self.l1 as nat) * pow2_64() + (self.l2 as nat) * pow2_128() + (
        self.l3 as nat) * pow2_192()
    }

    /// The integer `x` in the low limb.
    pub fn from_u64(x: u64) -> (r: U256)
        ensures
            r.value() == x,
            r == (U256 { l0: x, l1: 0, l2: 0, l3: 0 }),
    {
        U256 { l0: x, l1: 0, l2: 0, l3: 0 }
    }

    /// Reads 32 little-endian bytes.
    pub fn from_le_bytes(bytes: &[u8; 32]) -> (r: U256)
        ensures
            r.value() == le_value(bytes@),
    {
        let s = bytes.as_slice();
        let l0 = u64_from_le_bytes(slice_subrange(s, 0, 8));
        let l1 = u64_from_le_bytes(slice_subrange(s, 8, 16));
        let l2 = u64_from_le_bytes(slice_subrange(s, 16, 24));
        let l3 = u64_from_le_bytes(slice_subrange(s, 24, 32));
        U256 { l0, l1, l2, l3 }
    }

    /// Whether `self` is the integer zero.
    pub fn is_zero(&self) -> (b: bool)
        ensures
            b == (self.value() == 0),
    {
        proof {
            lemma_order(U256 { l0: 0, l1: 0, l2: 0, l3: 0 }, *self);
        }
        self.l0 == 0 && self.l1 == 0 && self.l2 == 0 && self.l3 == 0
    }

    /// Whether `self` is strictly below `other` as an integer.
    pub fn lt(&self, other: &U256) -> (b: bool)
        ensures
            b == (self.value() < other.value()),
    {
        proof {
            lemma_order(*self, *other);
        }
        if self.l3 != other.l3 {
            self.l3 < other.l3
        } else if self.l2 != other.l2 {
            self.l2 < other.l2
        } else if self.l1 != other.l1 {
            self.l1 < other.l1
        } else {
            self.l0 < other.l0
        }
    }

    /// Whether `self` fits in 64 bits.
    pub fn fits_u64(&self) -> (b: bool)
        ensures
            b == (self.value() < pow2_64()),
            b ==> self.value() == self.l0,
    {
        proof {
            lemma_order(*self, U256 { l0: 0, l1: 1, l2: 0, l3: 0 });
        }
        self.l1 == 0 && self.l2 == 0 && self.l3 == 0
    }
}

/// The integer of the three low limbs is below two to the power 192, and that of
/// the two low limbs below two to the power 128.
pub proof fn lemma_low_limbs(a: U256)
    ensures
        (a.l0 as nat) + (a.l1 as nat) * pow2_64() < pow2_128(),
        (a.l0 as nat) + (a.l1 as nat) * pow2_64() + (a.l2 as nat) * pow2_128() < pow2_192(),
{
    assert((a.l1 as nat) * pow2_64() <= 0xffff_ffff_ffff_ffffnat * pow2_64());
    assert((a.l2 as nat) * pow2_128() <= 0xffff_ffff_ffff_ffffnat * pow2_128());
}

/// The low limb is the integer modulo two to the power 64.
pub proof fn lemma_low_limb(a: U256)
    ensures
        a.value() % pow2_64() == a.l0,
{
    let high = (a.l1 as nat) + (a.l2 as nat) * pow2_64() + (a.l3 as nat) * pow2_128();
    assert(a.value() == high * pow2_64() + (a.l0 as nat));
    vstd::arithmetic::div_mod::lemma_fundamental_div_mod_converse(
        a.value() as int,
        pow2_64() as int,
        high as int,
        a.l0 as int,
    );
}

/// Integers are ordered as their limbs are, most significant limb first.
pub proof fn lemma_order(a: U256, b: U256)
    ensures
        a.value() < b.value() <==> (a.l3 < b.l3 || (a.l3 == b.l3 && (a.l2 < b.l2 || (a.l2 == b.l2
            && (a.l1 < b.l1 || (a.l1 == b.l1 && a.l0 < b.l0)))))),
{
    lemma_low_limbs(a);
    lemma_low_limbs(b);
    if a.l3 < b.l3 {
        assert((a.l3 as nat) * pow2_192() + pow2_192() <= (b.l3 as nat) * pow2_192());
    } else if b.l3 < a.l3 {
        assert((b.l3 as nat) * pow2_192() + pow2_192() <= (a.l3 as nat) * pow2_192());
    } else if a.l2 < b.l2 {
        assert((a.l2 as nat) * pow2_128() + pow2_128() <= (b.l2 as nat) * pow2_128());
    } else if b.l2 < a.l2 {
        assert((b.l2 as nat) * pow2_128() + pow2_128() <= (a.l2 as nat) * pow2_128());
    } else if a.l1 < b.l1 {
        assert((a.l1 as nat) * pow2_64() + pow2_64() <= (b.l1 as nat) * pow2_64());
    } else if b.l1 < a.l1 {
        assert((b.l1 as nat) * pow2_64() + pow2_64() <= (a.l1 as nat) * pow2_64());
    }
}

/// Two integers with the same value have the same limbs.
pub proof fn lemma_value_injective(a: U256, b: U256)
    requires
        a.value() == b.value(),
    ensures
        a == b,
{
    lemma_order(a, b);
    lemma_order(b, a);
}

} // verus!
