//! The signature curve, BN256 G1, with its scalar field and its base field.
//! Both fields differ from the circuit's native field.

use crate::field::Fe;
use crate::uint::{le_value, U256};
use halo2curves::bn256::{Fq, Fr, G1Affine};
use halo2curves::ff::Field;
use halo2curves::group::Curve;
use halo2curves::CurveAffine;
use vstd::prelude::*;

verus! {

/// The order of the curve's group, which is the order of its scalar field.
pub open spec fn scalar_order() -> nat {
    0x3064_4e72_e131_a029_b850_45b6_8181_585d_2833_e848_79b9_7091_43e1_f593_f000_0001nat
}

/// The order of the curve's base field.
pub open spec fn base_order() -> nat {
    0x3064_4e72_e131_a029_b850_45b6_8181_585d_9781_6a91_6871_ca8d_3c20_8c16_d87c_fd47nat
}

/// The scalar field's order as limbs.
pub fn scalar_order_limbs() -> (m: U256)
    ensures
        m.value() == scalar_order(),
{
    U256 {
        l0: 0x43e1_f593_f000_0001,
        l1: 0x2833_e848_79b9_7091,
        l2: 0xb850_45b6_8181_585d,
        l3: 0x3064_4e72_e131_a029,
    }
}

/// The base field's order as limbs.
pub fn base_order_limbs() -> (m: U256)
    ensures
        m.value() == base_order(),
{
    U256 {
        l0: 0x3c20_8c16_d87c_fd47,
        l1: 0x9781_6a91_6871_ca8d,
        l2: 0xb850_45b6_8181_585d,
        l3: 0x3064_4e72_e131_a029,
    }
}

/// The point `scalar * point` of the curve's group, points given by their affine
/// coordinates and the identity by `(0, 0)`.
pub uninterp spec fn g1_mul(point: (nat, nat), scalar: nat) -> (nat, nat);

/// The sum of two points of the curve's group, points given by their affine
/// coordinates and the identity by `(0, 0)`.
pub uninterp spec fn g1_add(a: (nat, nat), b: (nat, nat)) -> (nat, nat);

/// The coordinates of the group's generator.
pub open spec fn generator() -> (nat, nat) {
    (1, 2)
}

/// Whether `(x, y)` satisfies the curve's equation `y^2 = x^3 + 3` over the
/// base field.
pub open spec fn on_curve(x: nat, y: nat) -> bool {
    (y * y) % base_order() == (x * x * x + 3) % base_order()
}

/// Whether `w` is the inverse of `s` in the scalar field.
pub open spec fn is_inverse(s: nat, w: nat) -> bool {
    w < scalar_order() && (s * w) % scalar_order() == 1
}

/// Multiplication in the scalar field by `Fr::mul`. Both operands are read with
/// `Fr::from_raw` from canonical limbs and the product is written out with
/// `Fr::to_bytes`, the canonical 32 little-endian bytes.
#[verifier::external_body]
fn fr_mul(a: &U256, b: &U256) -> (r: [u8; 32])
    requires
        a.value() < scalar_order(),
        b.value() < scalar_order(),
    ensures
        le_value(r@) == (a.value() * b.value()) % scalar_order(),
{
    Fr::from_raw([a.l0, a.l1, a.l2, a.l3]).mul(&Fr::from_raw([b.l0, b.l1, b.l2, b.l3])).to_bytes()
}

/// Inversion in the scalar field by `Field::invert` of `Fr`, which fails on zero
/// alone. The inverse is written out with `Fr::to_bytes`.
#[verifier::external_body]
fn fr_invert(a: &U256) -> (r: Option<[u8; 32]>)
    requires
        a.value() < scalar_order(),
    ensures
        r is None <==> a.value() == 0,
        r matches Some(w) ==> is_inverse(a.value(), le_value(w@)),
{
    match Option::<Fr>::from(Fr::from_raw([a.l0, a.l1, a.l2, a.l3]).invert()) {
        Some(w) => Some(w.to_bytes()),
        None => None,
    }
}

/// Reduction into the scalar field by `Fr::from_raw`, which takes any integer
/// of four limbs to the element congruent to it; written out with `Fr::to_bytes`.
#[verifier::external_body]
fn fr_reduce(a: &U256) -> (r: [u8; 32])
    ensures
        le_value(r@) == a.value() % scalar_order(),
{
    Fr::from_raw([a.l0, a.l1, a.l2, a.l3]).to_bytes()
}

/// The curve check of `CurveAffine::is_on_curve` for `G1Affine`, on coordinates
/// read with `Fq::from_raw` from canonical limbs: the curve's equation holds,
/// or both coordinates are zero, which stands for the identity.
#[verifier::external_body]
fn g1_is_on_curve(x: &U256, y: &U256) -> (b: bool)
    requires
        x.value() < base_order(),
        y.value() < base_order(),
    ensures
        b == (on_curve(x.value(), y.value()) || (x.value() == 0 && y.value() == 0)),
{
    let point = G1Affine {
        x: Fq::from_raw([x.l0, x.l1, x.l2, x.l3]),
        y: Fq::from_raw([y.l0, y.l1, y.l2, y.l3]),
    };
    bool::from(point.is_on_curve())
}

/// Scalar multiplication of `G1Affine` by `Fr`, brought back to affine
/// coordinates with `Curve::to_affine` and written out with `Fq::to_bytes`.
#[verifier::external_body]
fn g1_scalar_mul(x: &U256, y: &U256, k: &U256) -> (r: ([u8; 32], [u8; 32]))
    requires
        x.value() < base_order(),
        y.value() < base_order(),
        k.value() < scalar_order(),
    ensures
        (le_value(r.0@), le_value(r.1@)) == g1_mul((x.value(), y.value()), k.value()),
        le_value(r.0@) < base_order(),
        le_value(r.1@) < base_order(),
{
    let point = G1Affine {
        x: Fq::from_raw([x.l0, x.l1, x.l2, x.l3]),
        y: Fq::from_raw([y.l0, y.l1, y.l2, y.l3]),
    };
    let product = (point * Fr::from_raw([k.l0, k.l1, k.l2, k.l3])).to_affine();
    (product.x.to_bytes(), product.y.to_bytes())
}

/// Addition of two `G1Affine` points, brought back to affine coordinates with
/// `Curve::to_affine` and written out with `Fq::to_bytes`.
#[verifier::external_body]
fn g1_point_add(ax: &U256, ay: &U256, bx: &U256, by: &U256) -> (r: ([u8; 32], [u8; 32]))
    requires
        ax.value() < base_order(),
        ay.value() < base_order(),
        bx.value() < base_order(),
        by.value() < base_order(),
    ensures
        (le_value(r.0@), le_value(r.1@)) == g1_add(
            (ax.value(), ay.value()),
            (bx.value(), by.value()),
        ),
        le_value(r.0@) < base_order(),
        le_value(r.1@) < base_order(),
{
    let a = G1Affine {
        x: Fq::from_raw([ax.l0, ax.l1, ax.l2, ax.l3]),
        y: Fq::from_raw([ay.l0, ay.l1, ay.l2, ay.l3]),
    };
    let b = G1Affine {
        x: Fq::from_raw([bx.l0, bx.l1, bx.l2, bx.l3]),
        y: Fq::from_raw([by.l0, by.l1, by.l2, by.l3]),
    };
    let sum = (a + b).to_affine();
    (sum.x.to_bytes(), sum.y.to_bytes())
}

/// An element of the signature curve's scalar field, held as its canonical integer.
#[derive(Clone, Copy, Debug, PartialEq, Eq, Structural)]
pub struct Scalar {
    repr: U256,
}

impl View for Scalar {
    type V = nat;

    /// The integer in `0 .. scalar_order()` that stands for the element.
    closed spec fn view(&self) -> nat {
        self.repr.value()
    }
}

impl Scalar {
    #[verifier::type_invariant]
    pub closed spec fn canonical(&self) -> bool {
        self.repr.value() < scalar_order()
    }

    /// The element of a canonical integer, or `None` for one at or above the
    /// field's order.
    pub fn from_u256(x: U256) -> (r: Option<Scalar>)
        ensures
            r is Some <==> x.value() < scalar_order(),
            r matches Some(e) ==> e@ == x.value(),
    {
        let m = scalar_order_limbs();
        if x.lt(&m) {
            Some(Scalar { repr: x })
        } else {
            None
        }
    }

    /// The scalar with the integer of a native field element, or `None` where
    /// that integer is no scalar.
    pub fn from_fe(e: &Fe) -> (r: Option<Scalar>)
        ensures
            r is Some <==> e@ < scalar_order(),
            r matches Some(s) ==> s@ == e@,
    {
        Scalar::from_u256(e.to_u256())
    }

    /// The element of a small integer.
    pub fn from_u64(x: u64) -> (r: Scalar)
        ensures
            r@ == x,
    {
        Scalar { repr: U256::from_u64(x) }
    }

    /// The canonical integer of the element, as limbs.
    pub closed spec fn to_u256_spec(&self) -> U256 {
        self.repr
    }

    /// The canonical integer of the element.
    pub fn to_u256(&self) -> (r: U256)
        ensures
            r == self.to_u256_spec(),
            r.value() == self@,
            r.value() < scalar_order(),
    {
        proof {
            use_type_invariant(self);
        }
        self.repr
    }

    /// `self * other` in the field.
    pub fn mul(&self, other: &Scalar) -> (r: Scalar)
        ensures
            r@ == (self@ * other@) % scalar_order(),
    {
        proof {
            use_type_invariant(self);
            use_type_invariant(other);
        }
        let bytes = fr_mul(&self.repr, &other.repr);
        Scalar { repr: U256::from_le_bytes(&bytes) }
    }

    /// The inverse of `self` in the field, or `None` for zero.
    pub fn invert(&self) -> (r: Option<Scalar>)
        ensures
            r is None <==> self@ == 0,
            r matches Some(w) ==> is_inverse(self@, w@),
    {
        proof {
            use_type_invariant(self);
        }
        match fr_invert(&self.repr) {
            Some(bytes) => Some(Scalar { repr: U256::from_le_bytes(&bytes) }),
            None => None,
        }
    }

    /// The scalar congruent to an integer of four limbs.
    pub fn reduce(x: &U256) -> (r: Scalar)
        ensures
            r@ == x.value() % scalar_order(),
    {
        let bytes = fr_reduce(x);
        Scalar { repr: U256::from_le_bytes(&bytes) }
    }
}

/// Scalars with the same integer are the same scalar.
pub proof fn lemma_scalar_injective(a: Scalar, b: Scalar)
    requires
        a@ == b@,
    ensures
        a == b,
{
    crate::uint::lemma_value_injective(a.repr, b.repr);
}

/// The limbs of a scalar stand for its integer.
pub proof fn lemma_scalar_limbs(e: Scalar)
    ensures
        e.to_u256_spec().value() == e@,
{
}

/// An element of the signature curve's base field, held as its canonical integer.
#[derive(Clone, Copy, Debug, PartialEq, Eq, Structural)]
pub struct Base {
    repr: U256,
}

impl View for Base {
    type V = nat;

    /// The integer in `0 .. base_order()` that stands for the element.
    closed spec fn view(&self) -> nat {
        self.repr.value()
    }
}

impl Base {
    #[verifier::type_invariant]
    pub closed spec fn canonical(&self) -> bool {
        self.repr.value() < base_order()
    }

    /// The element of a canonical integer, or `None` for one at or above the
    /// field's order.
    pub fn from_u256(x: U256) -> (r: Option<Base>)
        ensures
            r is Some <==> x.value() < base_order(),
            r matches Some(e) ==> e@ == x.value(),
    {
        let m = base_order_limbs();
        if x.lt(&m) {
            Some(Base { repr: x })
        } else {
            None
        }
    }

    /// The base field element with the integer of a native field element, or
    /// `None` where that integer is no element of the base field.
    pub fn from_fe(e: &Fe) -> (r: Option<Base>)
        ensures
            r is Some <==> e@ < base_order(),
            r matches Some(s) ==> s@ == e@,
    {
        Base::from_u256(e.to_u256())
    }

    /// The element of a small integer.
    pub fn from_u64(x: u64) -> (r: Base)
        ensures
            r@ == x,
    {
        Base { repr: U256::from_u64(x) }
    }

    /// The canonical integer of the element, as limbs.
    pub closed spec fn to_u256_spec(&self) -> U256 {
        self.repr
    }

    /// The canonical integer of the element.
    pub fn to_u256(&self) -> (r: U256)
        ensures
            r == self.to_u256_spec(),
            r.value() == self@,
            r.value() < base_order(),
    {
        proof {
            use_type_invariant(self);
        }
        self.repr
    }
}

/// The limbs of a base field element stand for its integer.
pub proof fn lemma_base_limbs(e: Base)
    ensures
        e.to_u256_spec().value() == e@,
{
}

/// A point of the curve in affine coordinates; `(0, 0)` stands for the identity.
#[derive(Clone, Copy, Debug, PartialEq, Eq, Structural)]
pub struct Point {
    pub x: Base,
    pub y: Base,
}

impl Point {
    /// The point's coordinates as integers.
    pub open spec fn coordinates(&self) -> (nat, nat) {
        (self.x@, self.y@)
    }

    /// The group's generator.
    pub fn generator() -> (g: Point)
        ensures
            g.coordinates() == generator(),
    {
        Point { x: Base::from_u64(1), y: Base::from_u64(2) }
    }

    /// Whether the point is the identity.
    pub fn is_identity(&self) -> (b: bool)
        ensures
            b == (self.coordinates() == (0nat, 0nat)),
    {
        self.x.to_u256().is_zero() && self.y.to_u256().is_zero()
    }

    /// Whether the point satisfies the curve's equation. The identity does not.
    pub fn is_on_curve(&self) -> (b: bool)
        ensures
            b == (on_curve(self.x@, self.y@) && self.coordinates() != (0nat, 0nat)),
    {
        if self.is_identity() {
            return false;
        }
        g1_is_on_curve(&self.x.to_u256(), &self.y.to_u256())
    }

    /// `k * self` in the curve's group.
    pub fn mul(&self, k: &Scalar) -> (r: Point)
        ensures
            r.coordinates() == g1_mul(self.coordinates(), k@),
    {
        let (x, y) = g1_scalar_mul(&self.x.to_u256(), &self.y.to_u256(), &k.to_u256());
        Point {
            x: Base::from_u256(U256::from_le_bytes(&x)).unwrap(),
            y: Base::from_u256(U256::from_le_bytes(&y)).unwrap(),
        }
    }

    /// `self + other` in the curve's group.
    pub fn add(&self, other: &Point) -> (r: Point)
        ensures
            r.coordinates() == g1_add(self.coordinates(), other.coordinates()),
    {
        let (x, y) = g1_point_add(
            &self.x.to_u256(),
            &self.y.to_u256(),
            &other.x.to_u256(),
            &other.y.to_u256(),
        );
        Point {
            x: Base::from_u256(U256::from_le_bytes(&x)).unwrap(),
            y: Base::from_u256(U256::from_le_bytes(&y)).unwrap(),
        }
    }
}

} // verus!
