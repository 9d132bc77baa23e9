//! The identity claim circuit: one witness assignment that shows a value in
//! range, its hash commitment in a Merkle-committed set, and a valid signature.

use crate::cs::{
    columns_grown, same_shape, ChipConfig, Column, ColumnKind, ConstraintSystem,
};
use crate::curve::{base_order, on_curve, scalar_order, Base, Point, Scalar};
use crate::error::{Error, Gadget};
use crate::field::Fe;
use crate::gadgets::merkle::{fe_values, merkle_ops, merkle_root, node_cell, MerkleGadget};
use crate::gadgets::poseidon::{
    hash_ops, hash_output, poseidon, poseidon_columns, PoseidonChip, PoseidonConfig,
    PoseidonGadget,
};
use crate::gadgets::range_check::{
    first_row, in_range, range_columns, range_gates_added, range_ops, RangeCheckChip,
    RangeCheckConfig,
};
use crate::gadgets::signature::{
    ecdsa_valid, integer_of, key_ops, AssignedEcdsaSig, AssignedPublicKey, RangeMode,
    SignatureChip, SignatureConfig,
};
use crate::layouter::{
    in_opened, is_assign, satisfied, AssignedCell, Cell, Layouter, Op, RegionName,
};
use vstd::prelude::*;

verus! {

/// The witness of one claim.
#[derive(Clone, Debug, PartialEq, Eq)]
pub struct IdentityClaimCircuit {
    /// The hash commitment of the claim, as the prover holds it. The circuit
    /// computes the commitment anew from value and bounds.
    pub claim_hash: Fe,
    /// The published root of the committed set: the circuit's one public input.
    pub merkle_root: Fe,
    /// The siblings on the path from the claim's leaf to the root.
    pub merkle_proof: Vec<Fe>,
    /// The position of the claim's leaf; its bits give the side of each level.
    pub leaf_index: usize,
    /// The attested value.
    pub value: Fe,
    /// The lower bound of the disclosed range.
    pub min: Fe,
    /// The upper bound of the disclosed range.
    pub max: Fe,
    /// The signed digest: the claim's hash, taken as a scalar of the signature
    /// curve. The circuit does not tie it to the hash commitment that it
    /// computes: whoever assigns the witness answers for the two being the same.
    pub signature_hash: Fe,
    /// The first half of the signature.
    pub sig_r: Fe,
    /// The second half of the signature.
    pub sig_s: Fe,
    /// The first coordinate of the authority's public key.
    pub pk_x: Fe,
    /// The second coordinate of the authority's public key.
    pub pk_y: Fe,
}

/// The columns and parameters of the claim circuit.
#[derive(Clone, Copy, Debug, PartialEq, Eq)]
pub struct IdentityClaimConfig {
    pub range: RangeCheckConfig,
    pub signature: SignatureConfig,
    pub poseidon: PoseidonConfig,
    /// The instance column whose first row holds the published root.
    pub instance: Column,
}

/// Whether the leaf at `leaf_index` is the right child at `level`, counted from
/// the leaf: the bit `level` of the index.
pub open spec fn index_bit(leaf_index: usize, level: int) -> bool {
    0 <= level < usize::BITS && (leaf_index >> (level as usize)) & 1 == 1
}

/// The sides of the first `depth` levels above the leaf at `leaf_index`.
pub open spec fn index_sides(leaf_index: usize, depth: nat) -> Seq<bool> {
    Seq::new(depth, |level: int| index_bit(leaf_index, level))
}

/// The bits of a leaf's index are the sides of the walk from that leaf up its tree.
pub proof fn lemma_index_sides_are_tree_sides(leaf_index: usize, depth: nat)
    ensures
        index_sides(leaf_index, depth) == crate::gadgets::merkle::tree_sides(leaf_index as nat, depth),
{
    let sides = crate::gadgets::merkle::tree_sides(leaf_index as nat, depth);
    assert forall|level: int| 0 <= level < depth implies index_bit(leaf_index, level) == sides[level] by {
        let position = crate::gadgets::merkle::ancestor(leaf_index as nat, level as nat);
        if level < usize::BITS {
            let shift = level as usize;
            vstd::bits::lemma_usize_shr_is_div(leaf_index, shift);
            let shifted = leaf_index >> shift;
            assert((shifted & 1 == 1) == (shifted % 2 == 1)) by (bit_vector);
        } else {
            vstd::layout::unsigned_int_max_values();
            if usize::BITS < level {
                vstd::arithmetic::power2::lemma_pow2_strictly_increases(
                    usize::BITS as nat,
                    level as nat,
                );
            }
            vstd::arithmetic::div_mod::lemma_basic_div(
                leaf_index as int,
                vstd::arithmetic::power2::pow2(level as nat) as int,
            );
        }
    }
    assert(index_sides(leaf_index, depth) =~= sides);
}

/// The sides of the first `depth` levels above the leaf at `leaf_index`.
pub fn index_bits(leaf_index: usize, depth: usize) -> (bits: Vec<bool>)
    ensures
        bits@ == index_sides(leaf_index, depth as nat),
{
    let mut bits: Vec<bool> = Vec::new();
    let mut level: usize = 0;
    while level < depth
        invariant
            level <= depth,
            bits@ == index_sides(leaf_index, level as nat),
        decreases depth - level,
    {
        let bit = if level < usize::BITS as usize {
            (leaf_index >> level) & 1 == 1
        } else {
            false
        };
        bits.push(bit);
        level = level + 1;
        assert(bits@ =~= index_sides(leaf_index, level as nat));
    }
    bits
}

/// The steps of the claim's own region `region`: value and bounds on the first
/// row of their columns, and the siblings below the value, one per row.
pub open spec fn main_ops(
    config: RangeCheckConfig,
    region: usize,
    value: Fe,
    min: Fe,
    max: Fe,
    path: Seq<Fe>,
) -> Seq<Op> {
    seq![
        Op::Region { name: RegionName::Claim },
        Op::Assign { cell: first_row(region, config.value, value) },
        Op::Assign { cell: first_row(region, config.min, min) },
        Op::Assign { cell: first_row(region, config.max, max) },
    ] + path_ops(config, region, path)
}

/// The cell of the sibling of `level`: row `level + 1` of the value's column.
pub open spec fn sibling_cell(config: RangeCheckConfig, region: usize, path: Seq<Fe>, level: int)
    -> AssignedCell {
    AssignedCell {
        cell: Cell { region, column: config.value.index, offset: (level + 1) as usize },
        value: path[level],
    }
}

/// The cells of all siblings.
pub open spec fn sibling_cells(config: RangeCheckConfig, region: usize, path: Seq<Fe>) -> Seq<
    AssignedCell,
> {
    Seq::new(path.len(), |level: int| sibling_cell(config, region, path, level))
}

/// The assignments of all siblings.
pub open spec fn path_ops(config: RangeCheckConfig, region: usize, path: Seq<Fe>) -> Seq<Op> {
    Seq::new(path.len(), |level: int| Op::Assign { cell: sibling_cell(config, region, path, level) })
}

/// Whether `ops` assigns no cell of `column` in `region` at or below the row `from`.
pub open spec fn rows_free(ops: Seq<Op>, region: usize, column: usize, from: int) -> bool {
    forall|i: int| 0 <= i < ops.len() ==> !in_rows(#[trigger] ops[i], region, column, from)
}

/// Whether `op` assigns a cell of `column` in `region` at or below the row `from`.
pub open spec fn in_rows(op: Op, region: usize, column: usize, from: int) -> bool {
    op matches Op::Assign { cell: c } && c.cell.region == region && c.cell.column == column
        && c.cell.offset >= from
}

/// Assigns the siblings of a path below the value.
fn assign_path(
    layouter: &mut Layouter,
    config: &RangeCheckConfig,
    region: usize,
    path: &Vec<Fe>,
) -> (r: Result<Vec<AssignedCell>, Error>)
    requires
        old(layouter).wf(),
        region < old(layouter).regions,
        rows_free(old(layouter).ops@, region, config.value.index, 1),
    ensures
        final(layouter).wf(),
        final(layouter).regions == old(layouter).regions,
        forall|instance: Seq<nat>| #[trigger]
            satisfied(final(layouter).ops@, instance) <==> satisfied(old(layouter).ops@, instance),
        r matches Ok(cells) && cells@ == sibling_cells(*config, region, path@),
        final(layouter).ops@ == old(layouter).ops@ + path_ops(*config, region, path@),
{
    let ghost before = layouter.ops@;
    let ghost all = path_ops(*config, region, path@);
    let mut cells: Vec<AssignedCell> = Vec::new();
    let mut level: usize = 0;
    while level < path.len()
        invariant
            level <= path@.len(),
            layouter.wf(),
            region < layouter.regions,
            layouter.regions == old(layouter).regions,
            before == old(layouter).ops@,
            all == path_ops(*config, region, path@),
            rows_free(before, region, config.value.index, 1),
            forall|instance: Seq<nat>| #[trigger]
                satisfied(layouter.ops@, instance) <==> satisfied(before, instance),
            layouter.ops@ == before + all.take(level as int),
            cells@ == sibling_cells(*config, region, path@).take(level as int),
        decreases path.len() - level,
    {
        proof {
            let cell = Cell { region, column: config.value.index, offset: (level + 1) as usize };
            assert forall|i: int| 0 <= i < layouter.ops@.len() implies !is_assign(
                #[trigger] layouter.ops@[i],
                cell,
            ) by {
                if i < before.len() {
                    assert(!in_rows(before[i], region, config.value.index, 1));
                } else {
                    assert(layouter.ops@[i] == all[i - before.len()]);
                }
            }
        }
        let cell = match layouter.assign_advice(
            Gadget::Claim,
            region,
            config.value,
            level + 1,
            path[level],
        ) {
            Ok(cell) => cell,
            Err(e) => return Err(e),
        };
        cells.push(cell);
        proof {
            assert(all.take(level + 1) =~= all.take(level as int).push(all[level as int]));
            let every = sibling_cells(*config, region, path@);
            assert(every.take(level + 1) =~= every.take(level as int).push(every[level as int]));
        }
        level = level + 1;
    }
    proof {
        assert(all.take(path@.len() as int) =~= all);
        let every = sibling_cells(*config, region, path@);
        assert(every.take(path@.len() as int) =~= every);
    }
    Ok(cells)
}

/// What configuring the claim circuit makes of a circuit's shape. The range
/// gadget comes first, then the chips of the signature gadget, then the hash
/// gadget on columns of its own, and last the instance column of the root.
/// Equality is open on the columns of value and bounds, on the hash gadget's
/// first state column, which holds the candidate root, and on the instance
/// column, so that the root can be bound to the public input.
pub open spec fn claim_configured(
    before: ConstraintSystem,
    after: ConstraintSystem,
    config: IdentityClaimConfig,
) -> bool {
    &&& config.range == range_columns(before.num_advice(), before.num_selectors())
    &&& config.signature == (SignatureConfig { limbs: 4, bits: 68, composition_bits: 17 })
    &&& config.poseidon == poseidon_columns(
        (before.num_advice() + 6) as usize,
        before.num_fixed(),
    )
    &&& config.instance == (Column { kind: ColumnKind::Instance, index: before.num_instance() })
    &&& columns_grown(before, after, 10, 6, 1, 3)
    &&& after.equality@ =~= before.equality@.push(config.range.value).push(config.range.min).push(
        config.range.max,
    ).push(config.poseidon.state[0]).push(config.instance)
    &&& after.constants@ =~= before.constants@.push(config.poseidon.rc_b[0])
    &&& after.chips@ =~= before.chips@.push(ChipConfig::MainGate).push(
        ChipConfig::RangeChip { composition_bits: 17 },
    ).push(ChipConfig::Poseidon { config: config.poseidon })
    &&& range_gates_added(before.gates@, after.gates@, config.range)
}

/// The steps of the signature's region `region`: the public key, the two halves
/// of the signature, the digest, and the constraint that the signature is valid.
pub open spec fn signature_ops(c: IdentityClaimCircuit, region: usize) -> Seq<Op> {
    let x = integer_of(region, c.pk_x.to_u256_spec(), RangeMode::Remainder);
    let y = integer_of(region, c.pk_y.to_u256_spec(), RangeMode::Remainder);
    let r = integer_of(region, c.sig_r.to_u256_spec(), RangeMode::Operand);
    let s = integer_of(region, c.sig_s.to_u256_spec(), RangeMode::Operand);
    let z = integer_of(region, c.signature_hash.to_u256_spec(), RangeMode::Operand);
    seq![Op::Region { name: RegionName::EcdsaVerify }] + key_ops(
        region,
        c.pk_x.to_u256_spec(),
        c.pk_y.to_u256_spec(),
    ) + seq![
        Op::Integer { integer: r },
        Op::Integer { integer: s },
        Op::Integer { integer: z },
        Op::Ecdsa {
            signature: AssignedEcdsaSig { r, s },
            public_key: AssignedPublicKey { x, y },
            message: z,
        },
    ]
}

/// The cell that holds the claim's hash commitment, where the claim's own
/// region is `region`.
pub open spec fn leaf_cell(c: IdentityClaimCircuit, config: IdentityClaimConfig, region: usize)
    -> AssignedCell {
    hash_output(
        PoseidonChip { config: config.poseidon },
        (region + 1) as usize,
        seq![c.value@, c.min@, c.max@],
    )
}

/// The cell that holds the candidate root.
pub open spec fn root_cell(c: IdentityClaimCircuit, config: IdentityClaimConfig, region: usize)
    -> AssignedCell {
    node_cell(
        PoseidonChip { config: config.poseidon },
        (region + 2) as usize,
        leaf_cell(c, config, region),
        sibling_cells(config.range, region, c.merkle_proof@),
        c.sides(),
        c.merkle_proof@.len(),
    )
}

/// Everything that synthesis of a claim adds to a layout whose next region is
/// `region`: the claim's own region; the hash commitment of value and bounds;
/// the walk up the Merkle path; the binding of the candidate root to the first
/// public input; the range assertion on the value's own cell; and the signature.
pub open spec fn claim_ops(c: IdentityClaimCircuit, config: IdentityClaimConfig, region: usize)
    -> Seq<Op> {
    let depth = c.merkle_proof@.len();
    let value = first_row(region, config.range.value, c.value);
    let min = first_row(region, config.range.min, c.min);
    let max = first_row(region, config.range.max, c.max);
    main_ops(config.range, region, c.value, c.min, c.max, c.merkle_proof@) + hash_ops(
        RegionName::ClaimHash,
        seq![value, min, max],
        leaf_cell(c, config, region),
    ) + merkle_ops(
        PoseidonChip { config: config.poseidon },
        (region + 2) as usize,
        leaf_cell(c, config, region),
        sibling_cells(config.range, region, c.merkle_proof@),
        c.sides(),
        depth,
    ) + seq![Op::Instance { cell: root_cell(c, config, region), column: config.instance, row: 0 }]
        + range_ops(config.range, (region + 2 + depth) as usize, value, min, max)
        + signature_ops(c, (region + 3 + depth) as usize)
}

/// Configuring the claim circuit on the same shape twice gives the same
/// columns and the same shape.
pub proof fn lemma_configure_deterministic(
    before: ConstraintSystem,
    first: ConstraintSystem,
    first_config: IdentityClaimConfig,
    second: ConstraintSystem,
    second_config: IdentityClaimConfig,
)
    requires
        claim_configured(before, first, first_config),
        claim_configured(before, second, second_config),
    ensures
        first_config == second_config,
        same_shape(first, second),
{
    crate::gadgets::range_check::lemma_same_gates(
        before.gates@,
        first.gates@,
        second.gates@,
        first_config.range,
    );
}

/// A claim whose value lies between its bounds, whose path leads from its
/// commitment to the published root, and whose signature is valid, can be
/// synthesized and holds under that root. The lower bound must be below two to
/// the power 64 and the bounds less than that apart.
pub proof fn lemma_valid_claim_holds(c: IdentityClaimCircuit, instance: Seq<nat>)
    requires
        c.min@ <= c.value@ <= c.max@ < crate::field::modulus(),
        c.min@ < crate::uint::pow2_64(),
        c.max@ - c.min@ < crate::uint::pow2_64(),
        instance == seq![c.root()],
        c.key_ok(),
        c.scalars_ok(),
        ecdsa_valid(c.sig_r@, c.sig_s@, c.pk_x@, c.pk_y@, c.signature_hash@),
    ensures
        c.failure() is None,
        c.holds(instance),
{
    crate::gadgets::range_check::lemma_within_bounds_accepted(c.value@, c.min@, c.max@);
}

/// A claim whose value lies beyond either of its bounds holds under no public
/// inputs.
pub proof fn lemma_out_of_range_claim_fails(c: IdentityClaimCircuit, instance: Seq<nat>)
    requires
        c.value@ < crate::field::modulus(),
        c.min@ < crate::field::modulus(),
        c.max@ < crate::field::modulus(),
        c.value@ < c.min@ || c.max@ < c.value@,
    ensures
        !c.holds(instance),
{
    crate::gadgets::range_check::lemma_in_range_is_order(c.value@, c.min@, c.max@);
}

/// A claim that holds has its value between its bounds, in the order of the
/// integers.
pub proof fn lemma_claim_in_order(c: IdentityClaimCircuit, instance: Seq<nat>)
    requires
        c.value@ < crate::field::modulus(),
        c.min@ < crate::field::modulus(),
        c.max@ < crate::field::modulus(),
        c.holds(instance),
    ensures
        c.min@ <= c.value@ <= c.max@,
{
    crate::gadgets::range_check::lemma_in_range_is_order(c.value@, c.min@, c.max@);
}

/// A claim holds under no root but the one that its path leads to.
pub proof fn lemma_wrong_root_fails(c: IdentityClaimCircuit, instance: Seq<nat>)
    requires
        instance.len() == 0 || instance[0] != c.root(),
    ensures
        !c.holds(instance),
{
}

impl IdentityClaimCircuit {
    /// The integers of the siblings.
    pub open spec fn path(&self) -> Seq<nat> {
        fe_values(self.merkle_proof@)
    }

    /// The sides of the path's levels.
    pub open spec fn sides(&self) -> Seq<bool> {
        index_sides(self.leaf_index, self.merkle_proof@.len())
    }

    /// The hash commitment of the claim.
    pub open spec fn leaf(&self) -> nat {
        poseidon(seq![self.value@, self.min@, self.max@])
    }

    /// The root that the claim's commitment and its path lead to.
    pub open spec fn root(&self) -> nat {
        merkle_root(self.leaf(), self.path(), self.sides())
    }

    /// Whether the key's coordinates are base field elements that name a point
    /// of the signature curve other than the identity.
    pub open spec fn key_ok(&self) -> bool {
        &&& self.pk_x@ < base_order()
        &&& self.pk_y@ < base_order()
        &&& on_curve(self.pk_x@, self.pk_y@)
        &&& (self.pk_x@, self.pk_y@) != (0nat, 0nat)
    }

    /// Whether signature and digest are scalars of the signature curve.
    pub open spec fn scalars_ok(&self) -> bool {
        &&& self.sig_r@ < scalar_order()
        &&& self.sig_s@ < scalar_order()
        &&& self.signature_hash@ < scalar_order()
    }

    /// The error that synthesis stops with, if any. The key is looked at before
    /// the signature, and its conversion before its curve.
    pub open spec fn failure(&self) -> Option<Error> {
        if !(self.pk_x@ < base_order() && self.pk_y@ < base_order()) {
            Some(Error::Conversion { gadget: Gadget::Signature })
        } else if !self.key_ok() {
            Some(Error::MalformedPoint)
        } else if !self.scalars_ok() {
            Some(Error::Conversion { gadget: Gadget::Signature })
        } else {
            None
        }
    }

    /// The relation that the circuit attests, given the public inputs: the value
    /// is in range, its commitment leads up the path to the published root, and
    /// the signature is valid.
    pub open spec fn holds(&self, instance: Seq<nat>) -> bool {
        &&& in_range(self.value@, self.min@, self.max@)
        &&& instance.len() > 0
        &&& self.root() == instance[0]
        &&& ecdsa_valid(self.sig_r@, self.sig_s@, self.pk_x@, self.pk_y@, self.signature_hash@)
    }

    /// The circuit without a witness, of the same shape: a path of as many
    /// siblings, every field element zero.
    pub fn without_witnesses(&self) -> (blank: IdentityClaimCircuit)
        ensures
            blank.claim_hash@ == 0,
            blank.merkle_root@ == 0,
            blank.merkle_proof@.len() == self.merkle_proof@.len(),
            forall|i: int|
                0 <= i < blank.merkle_proof@.len() ==> (#[trigger] blank.merkle_proof@[i])@ == 0,
            blank.leaf_index == 0,
            blank.value@ == 0,
            blank.min@ == 0,
            blank.max@ == 0,
            blank.signature_hash@ == 0,
            blank.sig_r@ == 0,
            blank.sig_s@ == 0,
            blank.pk_x@ == 0,
            blank.pk_y@ == 0,
    {
        IdentityClaimCircuit {
            claim_hash: Fe::zero(),
            merkle_root: Fe::zero(),
            merkle_proof: crate::field::zeros(self.merkle_proof.len()),
            leaf_index: 0,
            value: Fe::zero(),
            min: Fe::zero(),
            max: Fe::zero(),
            signature_hash: Fe::zero(),
            sig_r: Fe::zero(),
            sig_s: Fe::zero(),
            pk_x: Fe::zero(),
            pk_y: Fe::zero(),
        }
    }

    /// The circuit without a witness but for a key: the generator of the
    /// signature curve. The zero key names no point of the curve, so the
    /// circuit without any witness cannot be laid out; this one can, and it
    /// lays out the shape of every claim with as long a path.
    pub fn without_witnesses_on_curve(&self) -> (blank: IdentityClaimCircuit)
        ensures
            blank.claim_hash@ == 0,
            blank.merkle_root@ == 0,
            blank.merkle_proof@.len() == self.merkle_proof@.len(),
            forall|i: int|
                0 <= i < blank.merkle_proof@.len() ==> (#[trigger] blank.merkle_proof@[i])@ == 0,
            blank.leaf_index == 0,
            blank.value@ == 0,
            blank.min@ == 0,
            blank.max@ == 0,
            blank.signature_hash@ == 0,
            blank.sig_r@ == 0,
            blank.sig_s@ == 0,
            blank.pk_x@ == 1,
            blank.pk_y@ == 2,
            blank.failure() is None,
    {
        let mut blank = self.without_witnesses();
        blank.pk_x = Fe::from_u64(1);
        blank.pk_y = Fe::from_u64(2);
        blank
    }

    /// Takes the key's coordinates into the base field and the halves of the
    /// signature into the scalar field of the signature curve, and checks the
    /// key's point and the digest.
    fn convert(&self) -> (r: Result<(Base, Base, Scalar, Scalar), Error>)
        ensures
            r is Err <==> self.failure() is Some,
            r matches Err(e) ==> self.failure() == Some(e),
            r matches Ok(converted) ==> {
                &&& converted.0@ == self.pk_x@
                &&& converted.1@ == self.pk_y@
                &&& converted.2@ == self.sig_r@
                &&& converted.3@ == self.sig_s@
            },
    {
        let (pk_x, pk_y) = match (Base::from_fe(&self.pk_x), Base::from_fe(&self.pk_y)) {
            (Some(x), Some(y)) => (x, y),
            _ => return Err(Error::Conversion { gadget: Gadget::Signature }),
        };
        if !(Point { x: pk_x, y: pk_y }).is_on_curve() {
            return Err(Error::MalformedPoint);
        }
        let (sig_r, sig_s) = match (Scalar::from_fe(&self.sig_r), Scalar::from_fe(&self.sig_s)) {
            (Some(r), Some(s)) => (r, s),
            _ => return Err(Error::Conversion { gadget: Gadget::Signature }),
        };
        if Scalar::from_fe(&self.signature_hash).is_none() {
            return Err(Error::Conversion { gadget: Gadget::Signature });
        }
        Ok((pk_x, pk_y, sig_r, sig_s))
    }

    /// Lays out the claim's own region: value and bounds, and the siblings below
    /// the value.
    fn assign_claim(&self, config: &RangeCheckConfig, layouter: &mut Layouter) -> (r: Result<
        (AssignedCell, AssignedCell, AssignedCell, Vec<AssignedCell>),
        Error,
    >)
        requires
            old(layouter).wf(),
            config.wf(),
        ensures
            final(layouter).wf(),
            final(layouter).regions == old(layouter).regions + 1,
            forall|instance: Seq<nat>| #[trigger]
                satisfied(final(layouter).ops@, instance) <==> satisfied(
                    old(layouter).ops@,
                    instance,
                ),
            r matches Ok(cells) && {
                &&& cells.0 == first_row(old(layouter).regions, config.value, self.value)
                &&& cells.1 == first_row(old(layouter).regions, config.min, self.min)
                &&& cells.2 == first_row(old(layouter).regions, config.max, self.max)
                &&& cells.3@ == sibling_cells(*config, old(layouter).regions, self.merkle_proof@)
            },
            final(layouter).ops@ == old(layouter).ops@ + main_ops(
                *config,
                old(layouter).regions,
                self.value,
                self.min,
                self.max,
                self.merkle_proof@,
            ),
    {
        let ghost before = layouter.ops@;
        let region = layouter.assign_region(RegionName::Claim);
        proof {
            assert forall|i: int| 0 <= i < layouter.ops@.len() implies !in_rows(
                #[trigger] layouter.ops@[i],
                region,
                config.value.index,
                0,
            ) && !in_rows(layouter.ops@[i], region, config.min.index, 0) && !in_rows(
                layouter.ops@[i],
                region,
                config.max.index,
                0,
            ) by {
                if i < before.len() {
                    assert(in_opened(before[i], region));
                }
            }
        }
        let value = match layouter.assign_advice(Gadget::Claim, region, config.value, 0, self.value) {
            Ok(cell) => cell,
            Err(e) => return Err(e),
        };
        let min = match layouter.assign_advice(Gadget::Claim, region, config.min, 0, self.min) {
            Ok(cell) => cell,
            Err(e) => return Err(e),
        };
        let max = match layouter.assign_advice(Gadget::Claim, region, config.max, 0, self.max) {
            Ok(cell) => cell,
            Err(e) => return Err(e),
        };
        proof {
            assert forall|i: int| 0 <= i < layouter.ops@.len() implies !in_rows(
                #[trigger] layouter.ops@[i],
                region,
                config.value.index,
                1,
            ) by {
                if i < before.len() {
                    assert(in_opened(before[i], region));
                }
            }
        }
        let ghost head = layouter.ops@;
        let path = match assign_path(layouter, config, region, &self.merkle_proof) {
            Ok(cells) => cells,
            Err(e) => return Err(e),
        };
        proof {
            assert(head =~= before + seq![
                Op::Region { name: RegionName::Claim },
                Op::Assign { cell: value },
                Op::Assign { cell: min },
                Op::Assign { cell: max },
            ]);
            assert(layouter.ops@ =~= before + main_ops(
                *config,
                region,
                self.value,
                self.min,
                self.max,
                self.merkle_proof@,
            ));
        }
        Ok((value, min, max, path))
    }

    /// Lays out the signature's region: key, signature and digest, and the
    /// constraint that the signature is valid.
    fn assign_signature(
        &self,
        config: &SignatureConfig,
        layouter: &mut Layouter,
        pk: (Base, Base),
        sig: (Scalar, Scalar),
    ) -> (r: Result<(), Error>)
        requires
            old(layouter).wf(),
            self.failure() is None,
            pk.0@ == self.pk_x@,
            pk.1@ == self.pk_y@,
            sig.0@ == self.sig_r@,
            sig.1@ == self.sig_s@,
        ensures
            final(layouter).wf(),
            final(layouter).regions == old(layouter).regions + 1,
            forall|instance: Seq<nat>| #[trigger]
                satisfied(final(layouter).ops@, instance) <==> satisfied(
                    old(layouter).ops@,
                    instance,
                ) && ecdsa_valid(
                    self.sig_r@,
                    self.sig_s@,
                    self.pk_x@,
                    self.pk_y@,
                    self.signature_hash@,
                ),
            r is Ok,
            final(layouter).ops@ == old(layouter).ops@ + signature_ops(
                *self,
                old(layouter).regions,
            ),
    {
        let ghost before = layouter.ops@;
        let chip = SignatureChip::<4, 68>::new(*config);
        let region = layouter.assign_region(RegionName::EcdsaVerify);
        let assigned_pk = match chip.assign_public_key(layouter, region, pk) {
            Ok(key) => key,
            Err(e) => return Err(e),
        };
        let assigned_sig = match chip.assign_signature(layouter, region, sig) {
            Ok(sig) => sig,
            Err(e) => return Err(e),
        };
        let assigned_msg_hash = match chip.assign_integer(layouter, region, self.signature_hash) {
            Ok(integer) => integer,
            Err(e) => return Err(e),
        };
        match chip.verify(layouter, &assigned_sig, &assigned_pk, &assigned_msg_hash) {
            Ok(_) => {},
            Err(e) => return Err(e),
        }
        proof {
            crate::curve::lemma_base_limbs(pk.0);
            crate::curve::lemma_base_limbs(pk.1);
            crate::curve::lemma_scalar_limbs(sig.0);
            crate::curve::lemma_scalar_limbs(sig.1);
            crate::field::lemma_limbs_value(self.pk_x);
            crate::field::lemma_limbs_value(self.pk_y);
            crate::field::lemma_limbs_value(self.sig_r);
            crate::field::lemma_limbs_value(self.sig_s);
            crate::field::lemma_limbs_value(self.signature_hash);
            crate::uint::lemma_value_injective(pk.0.to_u256_spec(), self.pk_x.to_u256_spec());
            crate::uint::lemma_value_injective(pk.1.to_u256_spec(), self.pk_y.to_u256_spec());
            crate::uint::lemma_value_injective(sig.0.to_u256_spec(), self.sig_r.to_u256_spec());
            crate::uint::lemma_value_injective(sig.1.to_u256_spec(), self.sig_s.to_u256_spec());
            assert(layouter.ops@ =~= before + signature_ops(*self, region));
        }
        Ok(())
    }

    /// Assigns the claim's witness and lays out every gadget on it: the claim's
    /// own region, the hash commitment, the Merkle walk bound to the first
    /// public input, the range assertion and the signature. A key or a scalar
    /// that cannot be laid out stops synthesis before anything is laid out.
    pub fn synthesize(&self, config: IdentityClaimConfig, layouter: &mut Layouter) -> (r: Result<
        (),
        Error,
    >)
        requires
            old(layouter).wf(),
            config.range.wf(),
        ensures
            final(layouter).wf(),
            r is Err <==> self.failure() is Some,
            r matches Err(e) ==> {
                &&& self.failure() == Some(e)
                &&& final(layouter).ops@ == old(layouter).ops@
                &&& final(layouter).regions == old(layouter).regions
            },
            r is Ok ==> {
                &&& final(layouter).regions == old(layouter).regions + self.merkle_proof@.len() + 4
                &&& final(layouter).ops@ == old(layouter).ops@ + claim_ops(
                    *self,
                    config,
                    old(layouter).regions,
                )
                &&& forall|instance: Seq<nat>| #[trigger]
                    satisfied(final(layouter).ops@, instance) <==> satisfied(
                        old(layouter).ops@,
                        instance,
                    ) && self.holds(instance)
            },
    {
        let (pk_x, pk_y, sig_r, sig_s) = match self.convert() {
            Ok(converted) => converted,
            Err(e) => return Err(e),
        };
        let ghost before = layouter.ops@;
        let ghost first = layouter.regions;

        let (value, min, max, path) = match self.assign_claim(&config.range, layouter) {
            Ok(cells) => cells,
            Err(e) => return Err(e),
        };
        let ghost after_main = layouter.ops@;

        // The hash commitment of the claim.
        let chip = PoseidonChip::construct(config.poseidon);
        let leaf = match PoseidonGadget::hash::<3>(
            &chip,
            layouter,
            RegionName::ClaimHash,
            [value, min, max],
        ) {
            Ok(cell) => cell,
            Err(e) => return Err(e),
        };
        let ghost inputs = seq![value, min, max];
        proof {
            assert(crate::gadgets::poseidon::cell_values(inputs) =~= seq![
                self.value@,
                self.min@,
                self.max@,
            ]);
            assert([value, min, max]@ =~= inputs);
            assert(leaf == leaf_cell(*self, config, first));
        }
        let ghost after_hash = layouter.ops@;

        // The walk up the Merkle path, and the root's binding to the public input.
        let indices = index_bits(self.leaf_index, self.merkle_proof.len());
        let root = match MerkleGadget::compute_root(
            &chip,
            layouter,
            leaf,
            path.as_slice(),
            indices.as_slice(),
        ) {
            Ok(cell) => cell,
            Err(e) => return Err(e),
        };
        proof {
            assert(crate::gadgets::merkle::path_values(path@) =~= self.path());
            assert(root.value@ == self.root());
            assert(root == root_cell(*self, config, first));
        }
        let ghost after_walk = layouter.ops@;
        layouter.constrain_instance(root, config.instance, 0);
        let ghost after_root = layouter.ops@;

        // The range assertion, on the very cells that were hashed.
        let range_chip = RangeCheckChip::construct(config.range);
        match range_chip.range_check(layouter, &value, &min, &max) {
            Ok(_) => {},
            Err(e) => return Err(e),
        }
        let ghost after_range = layouter.ops@;

        // The signature, in a region of its own.
        match self.assign_signature(&config.signature, layouter, (pk_x, pk_y), (sig_r, sig_s)) {
            Ok(_) => {},
            Err(e) => return Err(e),
        }
        proof {
            let depth = self.merkle_proof@.len();
            assert(after_hash == after_main + hash_ops(RegionName::ClaimHash, inputs, leaf));
            assert(after_root == after_walk.push(
                Op::Instance { cell: root, column: config.instance, row: 0 },
            ));
            assert(after_range == after_root + range_ops(
                config.range,
                (first + 2 + depth) as usize,
                value,
                min,
                max,
            ));
            assert(layouter.ops@ == after_range + signature_ops(
                *self,
                (first + 3 + depth) as usize,
            ));
            assert(layouter.ops@ =~= before + claim_ops(*self, config, first));
        }
        Ok(())
    }

    /// The public inputs of the claim: the published root alone.
    pub fn public_inputs(&self) -> (instance: Vec<Fe>)
        ensures
            instance@ == seq![self.merkle_root],
    {
        let mut instance: Vec<Fe> = Vec::new();
        instance.push(self.merkle_root);
        instance
    }

    /// Configures a circuit of the claim's shape, synthesizes the claim on it and
    /// decides whether the layout is satisfied under the public inputs
    /// `instance`: whether a proof of this claim would be accepted.
    pub fn accepts(&self, instance: &Vec<Fe>) -> (r: Result<bool, Error>)
        ensures
            r is Err <==> self.failure() is Some,
            r matches Err(e) ==> self.failure() == Some(e),
            r matches Ok(accepted) ==> accepted == self.holds(
                crate::layouter::instance_values(instance@),
            ),
    {
        let mut meta = ConstraintSystem::new();
        let config = IdentityClaimCircuit::configure(&mut meta);
        let mut layouter = Layouter::new();
        match self.synthesize(config, &mut layouter) {
            Ok(_) => {
                proof {
                    assert(satisfied(
                        Seq::<Op>::empty(),
                        crate::layouter::instance_values(instance@),
                    ));
                }
                Ok(layouter.is_satisfied(instance))
            },
            Err(e) => Err(e),
        }
    }

    /// Declares the circuit's columns and gates, once for every claim of this shape.
    pub fn configure(meta: &mut ConstraintSystem) -> (config: IdentityClaimConfig)
        ensures
            claim_configured(*old(meta), *final(meta), config),
            config.range.wf(),
    {
        let range = RangeCheckChip::configure(meta);
        let signature = SignatureChip::<4, 68>::configure(meta);
        let poseidon = PoseidonChip::configure(meta);
        let instance = meta.instance_column();
        meta.enable_equality(instance);
        proof {
            crate::cs::lemma_counts_fit(meta);
        }
        IdentityClaimConfig { range, signature, poseidon, instance }
    }
}

} // verus!
