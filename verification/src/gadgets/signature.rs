//! The signature verification gadget: ECDSA over the signature curve, whose
//! fields are not the circuit's native field. Every element of those fields is
//! laid out as an integer of `LIMBS` limbs of `BITS` bits each.

use crate::cs::{columns_grown, ChipConfig, ConstraintSystem};
use crate::curve::{
    g1_add, g1_mul, generator, is_inverse, on_curve, scalar_order, Base, Point, Scalar,
};
use crate::error::{Error, Gadget};
use crate::field::Fe;
use crate::layouter::{satisfied, signature_holds, Layouter, Op};
use crate::uint::{pow2_128, pow2_192, pow2_64, U256};
use vstd::prelude::*;

verus! {

/// The number of limbs of an integer.
pub const LIMBS: usize = 4;

/// The width of a limb in bits.
pub const BITS: usize = 68;

/// Two to the power `BITS`.
pub open spec fn limb_base() -> nat {
    0x10_0000_0000_0000_0000nat
}

/// Two to the power `2 * BITS`.
pub open spec fn limb_base_squared() -> nat {
    0x100_0000_0000_0000_0000_0000_0000_0000_0000nat
}

/// Two to the power `3 * BITS`.
pub open spec fn limb_base_cubed() -> nat {
    0x1000_0000_0000_0000_0000_0000_0000_0000_0000_0000_0000_0000_0000nat
}

/// The limbs of an integer, least significant first.
#[derive(Clone, Copy, Debug, PartialEq, Eq, Structural)]
pub struct Limbs {
    pub l0: u128,
    pub l1: u128,
    pub l2: u128,
    pub l3: u128,
}

impl Limbs {
    /// Every limb is below two to the power `BITS`.
    pub open spec fn bounded(&self) -> bool {
        self.l0 < limb_base() && self.l1 < limb_base() && self.l2 < limb_base() && self.l3
            < limb_base()
    }

    /// The integer that the limbs stand for.
    pub open spec fn value(&self) -> nat {
        (self.l0 as nat) + (self.l1 as nat) * limb_base() + (self.l2 as nat)
            * limb_base_squared() + (self.l3 as nat) * limb_base_cubed()
    }

    /// The limbs of an integer: each takes the next `BITS` bits.
    pub open spec fn of(x: U256) -> Limbs {
        Limbs {
            l0: ((x.l0 as nat) + ((x.l1 % 0x10) as nat) * 0x1_0000_0000_0000_0000) as u128,
            l1: (((x.l1 / 0x10) as nat) + ((x.l2 % 0x100) as nat) * 0x1000_0000_0000_0000) as u128,
            l2: (((x.l2 / 0x100) as nat) + ((x.l3 % 0x1000) as nat) * 0x100_0000_0000_0000) as u128,
            l3: (x.l3 / 0x1000) as u128,
        }
    }

    /// Cuts an integer into limbs.
    pub fn decompose(x: &U256) -> (r: Limbs)
        ensures
            r == Limbs::of(*x),
            r.bounded(),
            r.value() == x.value(),
    {
        let l0: u128 = (x.l0 as u128) + ((x.l1 % 0x10) as u128) * 0x1_0000_0000_0000_0000;
        let l1: u128 = ((x.l1 / 0x10) as u128) + ((x.l2 % 0x100) as u128) * 0x1000_0000_0000_0000;
        let l2: u128 = ((x.l2 / 0x100) as u128) + ((x.l3 % 0x1000) as u128) * 0x100_0000_0000_0000;
        let l3: u128 = (x.l3 / 0x1000) as u128;
        Limbs { l0, l1, l2, l3 }
    }
}

/// Limbs that are in range and stand for the same integer are the same limbs.
pub proof fn lemma_limbs_unique(a: Limbs, b: Limbs)
    requires
        a.bounded(),
        b.bounded(),
        a.value() == b.value(),
    ensures
        a == b,
{
    let low_a = (a.l0 as nat) + (a.l1 as nat) * limb_base() + (a.l2 as nat) * limb_base_squared();
    let low_b = (b.l0 as nat) + (b.l1 as nat) * limb_base() + (b.l2 as nat) * limb_base_squared();
    assert((a.l1 as nat) * limb_base() <= (limb_base() - 1) * limb_base());
    assert((b.l1 as nat) * limb_base() <= (limb_base() - 1) * limb_base());
    assert((a.l2 as nat) * limb_base_squared() <= (limb_base() - 1) * limb_base_squared());
    assert((b.l2 as nat) * limb_base_squared() <= (limb_base() - 1) * limb_base_squared());
    assert(low_a < limb_base_cubed() && low_b < limb_base_cubed());
    if a.l3 < b.l3 {
        assert((a.l3 as nat) * limb_base_cubed() + limb_base_cubed() <= (b.l3 as nat)
            * limb_base_cubed());
    } else if b.l3 < a.l3 {
        assert((b.l3 as nat) * limb_base_cubed() + limb_base_cubed() <= (a.l3 as nat)
            * limb_base_cubed());
    } else if a.l2 < b.l2 {
        assert((a.l2 as nat) * limb_base_squared() + limb_base_squared() <= (b.l2 as nat)
            * limb_base_squared());
    } else if b.l2 < a.l2 {
        assert((b.l2 as nat) * limb_base_squared() + limb_base_squared() <= (a.l2 as nat)
            * limb_base_squared());
    } else if a.l1 < b.l1 {
        assert((a.l1 as nat) * limb_base() + limb_base() <= (b.l1 as nat) * limb_base());
    } else if b.l1 < a.l1 {
        assert((b.l1 as nat) * limb_base() + limb_base() <= (a.l1 as nat) * limb_base());
    }
}

/// How the limbs of an assigned integer are range-constrained.
#[derive(Clone, Copy, Debug, PartialEq, Eq, Structural)]
pub enum RangeMode {
    /// As an operand of later arithmetic: every limb may use its full width.
    Operand,
    /// As the result of a reduction: the most significant limb is held to the
    /// width that the field's order leaves it.
    Remainder,
}

/// An integer laid out in a region, with its limbs.
#[derive(Clone, Copy, Debug, PartialEq, Eq, Structural)]
pub struct AssignedInteger {
    pub region: usize,
    pub value: U256,
    pub limbs: Limbs,
    pub mode: RangeMode,
}

impl AssignedInteger {
    /// The limbs are in range and stand for the integer.
    pub open spec fn wf(&self) -> bool {
        self.limbs.bounded() && self.limbs.value() == self.value.value()
    }
}

/// A signature laid out in a region.
#[derive(Clone, Copy, Debug, PartialEq, Eq, Structural)]
pub struct AssignedEcdsaSig {
    pub r: AssignedInteger,
    pub s: AssignedInteger,
}

/// A public key laid out in a region, as the point of its two coordinates.
#[derive(Clone, Copy, Debug, PartialEq, Eq, Structural)]
pub struct AssignedPublicKey {
    pub x: AssignedInteger,
    pub y: AssignedInteger,
}

/// The point `u1 * G + u2 * P` of the verification equation, where `w` is the
/// inverse of `s`, `u1 = z * w` and `u2 = r * w`.
pub open spec fn ecdsa_point(r: nat, px: nat, py: nat, z: nat, w: nat) -> (nat, nat) {
    g1_add(
        g1_mul(generator(), (z * w) % scalar_order()),
        g1_mul((px, py), (r * w) % scalar_order()),
    )
}

/// Whether the inverse `w` of `s` carries the verification equation through:
/// the point is no identity and its first coordinate is `r` modulo the group's
/// order.
pub open spec fn ecdsa_equation(r: nat, px: nat, py: nat, z: nat, w: nat) -> bool {
    ecdsa_point(r, px, py, z, w) != (0nat, 0nat) && ecdsa_point(r, px, py, z, w).0
        % scalar_order() == r
}

/// Whether `(r, s)` is a valid signature of the digest `z` under the public key
/// `(px, py)`.
pub open spec fn ecdsa_valid(r: nat, s: nat, px: nat, py: nat, z: nat) -> bool {
    &&& on_curve(px, py)
    &&& (px, py) != (0nat, 0nat)
    &&& exists|w: nat| is_inverse(s, w) && #[trigger] ecdsa_equation(r, px, py, z, w)
}

/// An element of the scalar field has at most one inverse.
pub proof fn lemma_inverse_unique(s: nat, v: nat, w: nat)
    requires
        is_inverse(s, v),
        is_inverse(s, w),
    ensures
        v == w,
{
    let n = scalar_order() as int;
    let (s, v, w) = (s as int, v as int, w as int);
    // v = v * (s * w) = (v * s) * w = w, all modulo n
    assert((v * (s * w)) % n == (v * ((s * w) % n)) % n) by {
        vstd::arithmetic::div_mod::lemma_mul_mod_noop_right(v, s * w, n);
    }
    assert(((v * s) * w) % n == (((v * s) % n) * w) % n) by {
        vstd::arithmetic::div_mod::lemma_mul_mod_noop_left(v * s, w, n);
    }
    assert(v * (s * w) == (v * s) * w) by (nonlinear_arith);
    assert(v * s == s * v) by (nonlinear_arith);
    assert(v * 1 == v && 1 * w == w);
    assert(v % n == v && w % n == w);
}

/// Decides whether a signature is valid: `w = 1/s`, `u1 = z * w`,
/// `u2 = r * w`, `R = u1 * G + u2 * P`, and `R.x = r` modulo the group's order.
pub fn ecdsa_verify(r: &Scalar, s: &Scalar, public_key: &Point, z: &Scalar) -> (b: bool)
    ensures
        b == ecdsa_valid(r@, s@, public_key.x@, public_key.y@, z@),
{
    if !public_key.is_on_curve() {
        return false;
    }
    let w = match s.invert() {
        Some(w) => w,
        None => {
            proof {
                assert forall|v: nat| !is_inverse(s@, v) by {
                    assert(s@ * v == 0) by (nonlinear_arith)
                        requires
                            s@ == 0,
                    ;
                }
            }
            return false;
        },
    };
    let u1 = z.mul(&w);
    let u2 = r.mul(&w);
    let point = Point::generator().mul(&u1).add(&public_key.mul(&u2));
    proof {
        assert(point.coordinates() == ecdsa_point(r@, public_key.x@, public_key.y@, z@, w@));
        assert forall|v: nat| is_inverse(s@, v) implies v == w@ by {
            lemma_inverse_unique(s@, v, w@);
        }
    }
    if point.is_identity() {
        return false;
    }
    let x = Scalar::reduce(&point.x.to_u256());
    proof {
        let holds = ecdsa_equation(r@, public_key.x@, public_key.y@, z@, w@);
        assert(holds == (x@ == r@));
        if x@ == r@ {
            crate::curve::lemma_scalar_injective(x, *r);
        }
        if ecdsa_valid(r@, s@, public_key.x@, public_key.y@, z@) {
            let v = choose|v: nat|
                is_inverse(s@, v) && #[trigger] ecdsa_equation(
                    r@,
                    public_key.x@,
                    public_key.y@,
                    z@,
                    v,
                );
            assert(v == w@);
        }
    }
    x == *r
}

/// The parameters that the gadget's chips are configured with.
#[derive(Clone, Copy, Debug, PartialEq, Eq, Structural)]
pub struct SignatureConfig {
    /// The number of limbs of an integer.
    pub limbs: usize,
    /// The width of a limb in bits.
    pub bits: usize,
    /// The width in bits of the lookups that a limb is composed from.
    pub composition_bits: usize,
}

/// The integer `value` laid out in `region` with its limbs bounded as `mode` says.
pub open spec fn integer_of(region: usize, value: U256, mode: RangeMode) -> AssignedInteger {
    AssignedInteger { region, value, limbs: Limbs::of(value), mode }
}

/// The steps that lay out a public key in `region`: its two coordinates, then
/// the point made of them.
pub open spec fn key_ops(region: usize, x: U256, y: U256) -> Seq<Op> {
    seq![
        Op::Integer { integer: integer_of(region, x, RangeMode::Remainder) },
        Op::Integer { integer: integer_of(region, y, RangeMode::Remainder) },
        Op::PublicKey {
            key: AssignedPublicKey {
                x: integer_of(region, x, RangeMode::Remainder),
                y: integer_of(region, y, RangeMode::Remainder),
            },
        },
    ]
}

/// The signature verification chip over the signature curve, for integers of
/// `LIMBS` limbs of `BITS` bits. The gadget is laid out for four limbs of 68
/// bits, which hold every element of the curve's two fields.
#[derive(Clone, Copy, Debug, PartialEq, Eq)]
pub struct SignatureChip<const LIMBS: usize, const BITS: usize> {
    pub config: SignatureConfig,
}

impl SignatureChip<4, 68> {
    /// The chip of a configuration.
    pub fn new(config: SignatureConfig) -> (chip: SignatureChip<4, 68>)
        ensures
            chip.config == config,
    {
        SignatureChip { config }
    }

    /// Configures the main gate and the range chip of the non-native
    /// arithmetic, the latter with lookups of `BITS / LIMBS` bits.
    pub fn configure(meta: &mut ConstraintSystem) -> (config: SignatureConfig)
        ensures
            config == (SignatureConfig { limbs: LIMBS, bits: BITS, composition_bits: 17 }),
            final(meta).chips@ == old(meta).chips@.push(ChipConfig::MainGate).push(
                ChipConfig::RangeChip { composition_bits: 17 },
            ),
            final(meta).gates@ == old(meta).gates@,
            final(meta).equality@ == old(meta).equality@,
            final(meta).constants@ == old(meta).constants@,
            columns_grown(*old(meta), *final(meta), 0, 0, 0, 0),
    {
        meta.configure_chip(ChipConfig::MainGate);
        meta.configure_chip(ChipConfig::RangeChip { composition_bits: BITS / LIMBS });
        SignatureConfig { limbs: LIMBS, bits: BITS, composition_bits: BITS / LIMBS }
    }

    /// Lays a scalar out as an integer whose limbs are bounded as operands.
    fn assign_scalar(layouter: &mut Layouter, region: usize, value: &Scalar) -> (r:
        AssignedInteger)
        ensures
            old(layouter).wf() ==> final(layouter).wf(),
            forall|instance: Seq<nat>| #[trigger]
                satisfied(final(layouter).ops@, instance) <==> satisfied(
                    old(layouter).ops@,
                    instance,
                ),
            r == integer_of(region, value.to_u256_spec(), RangeMode::Operand),
            r.wf(),
            final(layouter).regions == old(layouter).regions,
            final(layouter).ops@ == old(layouter).ops@.push(Op::Integer { integer: r }),
    {
        let integer = value.to_u256();
        let assigned = AssignedInteger {
            region,
            value: integer,
            limbs: Limbs::decompose(&integer),
            mode: RangeMode::Operand,
        };
        layouter.push(Op::Integer { integer: assigned });
        assigned
    }

    /// Lays out the two scalars of a signature, `r` before `s`, each as an
    /// integer whose limbs are bounded as operands.
    pub fn assign_signature(
        &self,
        layouter: &mut Layouter,
        region: usize,
        sig: (Scalar, Scalar),
    ) -> (r: Result<AssignedEcdsaSig, Error>)
        ensures
            old(layouter).wf() ==> final(layouter).wf(),
            forall|instance: Seq<nat>| #[trigger]
                satisfied(final(layouter).ops@, instance) <==> satisfied(
                    old(layouter).ops@,
                    instance,
                ),
            final(layouter).regions == old(layouter).regions,
            r matches Ok(assigned) && {
                &&& assigned.r == integer_of(region, sig.0.to_u256_spec(), RangeMode::Operand)
                &&& assigned.s == integer_of(region, sig.1.to_u256_spec(), RangeMode::Operand)
                &&& final(layouter).ops@ == old(layouter).ops@.push(
                    Op::Integer { integer: assigned.r },
                ).push(Op::Integer { integer: assigned.s })
            },
    {
        let r = Self::assign_scalar(layouter, region, &sig.0);
        let s = Self::assign_scalar(layouter, region, &sig.1);
        Ok(AssignedEcdsaSig { r, s })
    }

    /// Lays out the two coordinates of a public key, each as an integer whose
    /// limbs are bounded as remainders, and makes the point of them. Coordinates
    /// that name no point of the curve are refused, and the layout is left as
    /// it was.
    pub fn assign_public_key(
        &self,
        layouter: &mut Layouter,
        region: usize,
        pk: (Base, Base),
    ) -> (r: Result<AssignedPublicKey, Error>)
        ensures
            old(layouter).wf() ==> final(layouter).wf(),
            forall|instance: Seq<nat>| #[trigger]
                satisfied(final(layouter).ops@, instance) <==> satisfied(
                    old(layouter).ops@,
                    instance,
                ),
            final(layouter).regions == old(layouter).regions,
            r is Ok <==> on_curve(pk.0@, pk.1@) && (pk.0@, pk.1@) != (0nat, 0nat),
            r matches Err(e) ==> e == Error::MalformedPoint && final(layouter).ops@ == old(
                layouter,
            ).ops@,
            r matches Ok(key) ==> {
                &&& key.x == integer_of(region, pk.0.to_u256_spec(), RangeMode::Remainder)
                &&& key.y == integer_of(region, pk.1.to_u256_spec(), RangeMode::Remainder)
                &&& final(layouter).ops@ == old(layouter).ops@ + key_ops(
                    region,
                    pk.0.to_u256_spec(),
                    pk.1.to_u256_spec(),
                )
            },
    {
        let point = Point { x: pk.0, y: pk.1 };
        if !point.is_on_curve() {
            return Err(Error::MalformedPoint);
        }
        let x_value = pk.0.to_u256();
        let y_value = pk.1.to_u256();
        let x = AssignedInteger {
            region,
            value: x_value,
            limbs: Limbs::decompose(&x_value),
            mode: RangeMode::Remainder,
        };
        let y = AssignedInteger {
            region,
            value: y_value,
            limbs: Limbs::decompose(&y_value),
            mode: RangeMode::Remainder,
        };
        layouter.push(Op::Integer { integer: x });
        layouter.push(Op::Integer { integer: y });
        let key = AssignedPublicKey { x, y };
        layouter.push(Op::PublicKey { key });
        Ok(key)
    }

    /// Lays a native field element out as an integer of the scalar field, its
    /// limbs bounded as operands. An element whose integer is no scalar is
    /// refused, and the layout is left as it was.
    pub fn assign_integer(&self, layouter: &mut Layouter, region: usize, value: Fe) -> (r: Result<
        AssignedInteger,
        Error,
    >)
        ensures
            old(layouter).wf() ==> final(layouter).wf(),
            forall|instance: Seq<nat>| #[trigger]
                satisfied(final(layouter).ops@, instance) <==> satisfied(
                    old(layouter).ops@,
                    instance,
                ),
            final(layouter).regions == old(layouter).regions,
            r is Ok <==> value@ < scalar_order(),
            r matches Err(e) ==> e == (Error::Conversion { gadget: Gadget::Signature })
                && final(layouter).ops@ == old(layouter).ops@,
            r matches Ok(integer) ==> {
                &&& integer == integer_of(region, value.to_u256_spec(), RangeMode::Operand)
                &&& final(layouter).ops@ == old(layouter).ops@.push(Op::Integer { integer })
            },
    {
        match Scalar::from_fe(&value) {
            Some(scalar) => {
                proof {
                    crate::curve::lemma_scalar_limbs(scalar);
                    crate::field::lemma_limbs_value(value);
                    crate::uint::lemma_value_injective(
                        scalar.to_u256_spec(),
                        value.to_u256_spec(),
                    );
                }
                Ok(Self::assign_scalar(layouter, region, &scalar))
            },
            None => Err(Error::Conversion { gadget: Gadget::Signature }),
        }
    }

    /// Lays out the constraint that `sig` is a valid signature of `msg_hash`
    /// under `pk`. An invalid signature is no error here; it leaves the layout
    /// unsatisfied.
    pub fn verify(
        &self,
        layouter: &mut Layouter,
        sig: &AssignedEcdsaSig,
        pk: &AssignedPublicKey,
        msg_hash: &AssignedInteger,
    ) -> (r: Result<(), Error>)
        ensures
            old(layouter).wf() ==> final(layouter).wf(),
            forall|instance: Seq<nat>| #[trigger]
                satisfied(final(layouter).ops@, instance) <==> satisfied(
                    old(layouter).ops@,
                    instance,
                ) && signature_holds(*sig, *pk, *msg_hash),
            final(layouter).regions == old(layouter).regions,
            r is Ok,
            final(layouter).ops@ == old(layouter).ops@.push(
                Op::Ecdsa { signature: *sig, public_key: *pk, message: *msg_hash },
            ),
    {
        layouter.push(Op::Ecdsa { signature: *sig, public_key: *pk, message: *msg_hash });
        Ok(())
    }
}

} // verus!
