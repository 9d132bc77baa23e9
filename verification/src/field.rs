//! Elements of the circuit's native field, the base field of the Pallas curve.
//!
//! The native field is the one that the Poseidon parameters of the halo2
//! gadgets are made for. It is larger than both fields of the signature curve,
//! so a native element, the claim's hash among them, may have no counterpart
//! there: it is converted where it fits and refused where it does not.

use crate::uint::{le_value, U256};
use halo2_proofs::pasta::Fp;
use vstd::prelude::*;

verus! {

/// The order of the native field.
pub open spec fn modulus() -> nat {
    0x4000_0000_0000_0000_0000_0000_0000_0000_2246_98fc_094c_f91b_992d_30ed_0000_0001nat
}

/// The native field's order as limbs.
pub fn modulus_limbs() -> (m: U256)
    ensures
        m.value() == modulus(),
{
    U256 { l0: 0x992d_30ed_0000_0001, l1: 0x2246_98fc_094c_f91b, l2: 0, l3: 0x4000_0000_0000_0000 }
}

/// `a - b` in the native field.
pub open spec fn sub_mod(a: nat, b: nat) -> nat {
    ((a as int - b as int) % (modulus() as int)) as nat
}

/// Field subtraction by `pasta_curves::Fp::sub`. Both operands are read with
/// `Fp::from_raw` from canonical limbs, and the difference is written out by the
/// conversion of `Fp` into its canonical 32 little-endian bytes: the bytes hold
/// `a - b` reduced into `0 .. modulus()`.
#[verifier::external_body]
fn fp_sub(a: &U256, b: &U256) -> (r: [u8; 32])
    requires
        a.value() < modulus(),
        b.value() < modulus(),
    ensures
        le_value(r@) == sub_mod(a.value(), b.value()),
{
    let x = Fp::from_raw([a.l0, a.l1, a.l2, a.l3]);
    let y = Fp::from_raw([b.l0, b.l1, b.l2, b.l3]);
    <[u8; 32]>::from(x.sub(&y))
}

/// An element of the native field, held as its canonical integer.
#[derive(Clone, Copy, Debug, PartialEq, Eq, Structural)]
pub struct Fe {
    repr: U256,
}

impl View for Fe {
    type V = nat;

    /// The integer in `0 .. modulus()` that stands for the element.
    closed spec fn view(&self) -> nat {
        self.repr.value()
    }
}

impl Fe {
    #[verifier::type_invariant]
    pub closed spec fn canonical(&self) -> bool {
        self.repr.value() < modulus()
    }

    /// The element of a canonical integer, or `None` for one at or above the
    /// field's order.
    pub fn from_u256(x: U256) -> (r: Option<Fe>)
        ensures
            r is Some <==> x.value() < modulus(),
            r matches Some(e) ==> e@ == x.value(),
    {
        let m = modulus_limbs();
        if x.lt(&m) {
            Some(Fe { repr: x })
        } else {
            None
        }
    }

    /// The canonical integer of the element, as limbs.
    pub closed spec fn to_u256_spec(&self) -> U256 {
        self.repr
    }

    /// The canonical integer of the element.
    pub fn to_u256(&self) -> (r: U256)
        ensures
            r == self.to_u256_spec(),
            r.value() == self@,
            r.value() < modulus(),
    {
        proof {
            use_type_invariant(self);
        }
        self.repr
    }

    /// The element of a small integer.
    pub fn from_u64(x: u64) -> (r: Fe)
        ensures
            r@ == x,
    {
        Fe { repr: U256::from_u64(x) }
    }

    /// The additive identity.
    pub fn zero() -> (r: Fe)
        ensures
            r@ == 0,
    {
        Fe::from_u64(0)
    }

    /// `self - other` in the field.
    pub fn sub(&self, other: &Fe) -> (r: Fe)
        ensures
            r@ == sub_mod(self@, other@),
    {
        proof {
            use_type_invariant(self);
            use_type_invariant(other);
        }
        let bytes = fp_sub(&self.repr, &other.repr);
        Fe { repr: U256::from_le_bytes(&bytes) }
    }
}

/// A vector of `len` zeros.
pub fn zeros(len: usize) -> (v: Vec<Fe>)
    ensures
        v@.len() == len,
        forall|i: int| 0 <= i < len ==> (#[trigger] v@[i])@ == 0,
{
    let mut v: Vec<Fe> = Vec::new();
    let mut i: usize = 0;
    while i < len
        invariant
            i <= len,
            v@.len() == i,
            forall|j: int| 0 <= j < i ==> (#[trigger] v@[j])@ == 0,
        decreases len - i,
    {
        v.push(Fe::zero());
        i = i + 1;
    }
    v
}

/// The limbs of an element stand for its integer.
pub proof fn lemma_limbs_value(e: Fe)
    ensures
        e.to_u256_spec().value() == e@,
{
}

/// The element whose integer is `n`, where there is one.
pub closed spec fn fe(n: nat) -> Fe {
    choose|e: Fe| e@ == n
}

/// `fe` undoes the view.
pub proof fn lemma_fe_of_view(e: Fe)
    ensures
        fe(e@) == e,
{
    lemma_fe_injective(fe(e@), e);
}

/// Every integer below the field's order is the integer of its element.
pub proof fn lemma_fe_view(n: nat)
    requires
        n < modulus(),
    ensures
        fe(n)@ == n,
{
    let base = crate::uint::pow2_64();
    let q1 = n / base;
    let q2 = q1 / base;
    let q3 = q2 / base;
    assert(n == q1 * base + n % base);
    assert(q1 == q2 * base + q1 % base);
    assert(q2 == q3 * base + q2 % base);
    assert(q3 < base);
    let e = Fe {
        repr: U256 {
            l0: (n % base) as u64,
            l1: (q1 % base) as u64,
            l2: (q2 % base) as u64,
            l3: q3 as u64,
        },
    };
    assert(e@ == n);
}

/// Elements with the same integer are the same element.
pub proof fn lemma_fe_injective(a: Fe, b: Fe)
    requires
        a@ == b@,
    ensures
        a == b,
{
    crate::uint::lemma_value_injective(a.repr, b.repr);
}

} // verus!
