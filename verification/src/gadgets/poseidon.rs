//! The hash commitment gadget: a Poseidon sponge over the native field.

use crate::cs::{columns_grown, ChipConfig, Column, ColumnKind, ConstraintSystem};
use crate::error::{Error, Gadget};
use crate::field::{fe, lemma_fe_of_view, modulus, Fe};
use crate::layouter::{satisfied, AssignedCell, Cell, Layouter, Op, RegionName};
use crate::uint::{le_value, U256};
use halo2_gadgets::poseidon::primitives::{self, ConstantLength, P128Pow5T3};
use halo2_proofs::pasta::Fp;
use vstd::prelude::*;

verus! {

/// The sponge's state width.
pub const WIDTH: usize = 3;

/// The sponge's rate.
pub const RATE: usize = 2;

/// The Poseidon hash of a message of field elements, given by their integers,
/// under the domain of messages of that length.
pub uninterp spec fn poseidon(message: Seq<nat>) -> nat;

/// The integers of a message of canonical limbs.
pub open spec fn values<const L: usize>(words: [U256; L]) -> Seq<nat> {
    Seq::new(L as nat, |i: int| words[i].value())
}

/// The hash of halo2's Poseidon primitive, `Hash::init` followed by
/// `Hash::hash`, with the parameters `P128Pow5T3` and the domain
/// `ConstantLength<L>`. Each word is read with `Fp::from_raw`; the digest is
/// written out as the canonical 32 little-endian bytes of the resulting `Fp`,
/// so it is below the field's order. The sponge has nothing to squeeze from an
/// empty message, so there must be a word.
#[verifier::external_body]
fn poseidon_digest<const L: usize>(words: &[U256; L]) -> (r: [u8; 32])
    requires
        1 <= L,
        forall|i: int| 0 <= i < L ==> (#[trigger] words[i]).value() < modulus(),
    ensures
        le_value(r@) == poseidon(values(*words)),
        le_value(r@) < modulus(),
{
    let message = words.map(|w| Fp::from_raw([w.l0, w.l1, w.l2, w.l3]));
    let hasher = primitives::Hash::<Fp, P128Pow5T3, ConstantLength<L>, WIDTH, RATE>::init();
    <[u8; 32]>::from(hasher.hash(message))
}

/// The hash commitment of two field elements.
pub fn commit2(left: &Fe, right: &Fe) -> (r: Fe)
    ensures
        r@ == poseidon(seq![left@, right@]),
{
    let words = [left.to_u256(), right.to_u256()];
    let bytes = poseidon_digest::<2>(&words);
    proof {
        assert(values(words) =~= seq![left@, right@]);
    }
    Fe::from_u256(U256::from_le_bytes(&bytes)).unwrap()
}

/// The hash commitment of three field elements.
pub fn commit3(first: &Fe, second: &Fe, third: &Fe) -> (r: Fe)
    ensures
        r@ == poseidon(seq![first@, second@, third@]),
{
    let words = [first.to_u256(), second.to_u256(), third.to_u256()];
    let bytes = poseidon_digest::<3>(&words);
    proof {
        assert(values(words) =~= seq![first@, second@, third@]);
    }
    Fe::from_u256(U256::from_le_bytes(&bytes)).unwrap()
}

/// The columns that the hash gadget works on: the sponge's state, the column of
/// the partial rounds' S-box, and the two sets of round constants.
#[derive(Clone, Copy, Debug, PartialEq, Eq)]
pub struct PoseidonConfig {
    pub state: [Column; 3],
    pub partial_sbox: Column,
    pub rc_a: [Column; 3],
    pub rc_b: [Column; 3],
}

/// The hash gadget's chip, made from its configuration.
#[derive(Clone, Copy, Debug, PartialEq, Eq)]
pub struct PoseidonChip {
    pub config: PoseidonConfig,
}

/// The columns of the hash gadget, allocated after `advice` advice columns and
/// `fixed` fixed columns: three state columns and the S-box column, then the
/// two sets of three round-constant columns.
pub open spec fn poseidon_columns(advice: usize, fixed: usize) -> PoseidonConfig {
    PoseidonConfig {
        state: [
            Column { kind: ColumnKind::Advice, index: advice },
            Column { kind: ColumnKind::Advice, index: (advice + 1) as usize },
            Column { kind: ColumnKind::Advice, index: (advice + 2) as usize },
        ],
        partial_sbox: Column { kind: ColumnKind::Advice, index: (advice + 3) as usize },
        rc_a: [
            Column { kind: ColumnKind::Fixed, index: fixed },
            Column { kind: ColumnKind::Fixed, index: (fixed + 1) as usize },
            Column { kind: ColumnKind::Fixed, index: (fixed + 2) as usize },
        ],
        rc_b: [
            Column { kind: ColumnKind::Fixed, index: (fixed + 3) as usize },
            Column { kind: ColumnKind::Fixed, index: (fixed + 4) as usize },
            Column { kind: ColumnKind::Fixed, index: (fixed + 5) as usize },
        ],
    }
}

/// What configuring the hash gadget makes of a circuit's shape: four more advice
/// columns and six more fixed columns; constants on the first column of the
/// second set of round constants; equality on the first state column, which
/// holds every digest, so that a digest can be hashed again or bound to a
/// public input; and the chip itself on those columns.
pub open spec fn poseidon_configured(
    before: ConstraintSystem,
    after: ConstraintSystem,
    config: PoseidonConfig,
) -> bool {
    &&& config == poseidon_columns(before.num_advice(), before.num_fixed())
    &&& columns_grown(before, after, 4, 6, 0, 0)
    &&& after.equality@ =~= before.equality@.push(config.state[0])
    &&& after.constants@ =~= before.constants@.push(config.rc_b[0])
    &&& after.chips@ =~= before.chips@.push(ChipConfig::Poseidon { config })
    &&& after.gates@ =~= before.gates@
}

impl PoseidonChip {
    /// Allocates the gadget's columns and configures its chip on them.
    pub fn configure(meta: &mut ConstraintSystem) -> (config: PoseidonConfig)
        ensures
            poseidon_configured(*old(meta), *final(meta), config),
    {
        let state = [meta.advice_column(), meta.advice_column(), meta.advice_column()];
        let partial_sbox = meta.advice_column();
        let rc_a = [meta.fixed_column(), meta.fixed_column(), meta.fixed_column()];
        let rc_b = [meta.fixed_column(), meta.fixed_column(), meta.fixed_column()];
        let config = PoseidonConfig { state, partial_sbox, rc_a, rc_b };
        meta.enable_constant(rc_b[0]);
        meta.enable_equality(state[0]);
        meta.configure_chip(ChipConfig::Poseidon { config });
        proof {
            crate::cs::lemma_counts_fit(meta);
            let expected = poseidon_columns(old(meta).num_advice(), old(meta).num_fixed());
            assert(config.state@ =~= expected.state@);
            assert(config.rc_a@ =~= expected.rc_a@);
            assert(config.rc_b@ =~= expected.rc_b@);
        }
        config
    }

    /// The chip of a configuration.
    pub fn construct(config: PoseidonConfig) -> (chip: PoseidonChip)
        ensures
            chip.config == config,
    {
        PoseidonChip { config }
    }
}

/// The cell that a hash leaves its digest in: the first row of the first state
/// column of the hash's own region.
pub open spec fn hash_output(chip: PoseidonChip, region: usize, message: Seq<nat>) -> AssignedCell {
    AssignedCell {
        cell: Cell { region, column: chip.config.state[0].index, offset: 0 },
        value: fe(poseidon(message)),
    }
}

/// The integers that a sequence of cells holds.
pub open spec fn cell_values(cells: Seq<AssignedCell>) -> Seq<nat> {
    cells.map_values(|c: AssignedCell| c.value@)
}

/// The steps that a hash of two or of three cells adds to a layout: its region,
/// then the constraint that ties the digest to the inputs.
pub open spec fn hash_ops(name: RegionName, inputs: Seq<AssignedCell>, output: AssignedCell) -> Seq<
    Op,
> {
    if inputs.len() == 2 {
        seq![Op::Region { name }, Op::Hash2 { left: inputs[0], right: inputs[1], output }]
    } else {
        seq![
            Op::Region { name },
            Op::Hash3 { first: inputs[0], second: inputs[1], third: inputs[2], output },
        ]
    }
}

/// The hash commitment gadget.
pub struct PoseidonGadget;

impl PoseidonGadget {
    /// Lays out the hash commitment of two or of three cells in a region of its
    /// own, named `name`, and returns the cell that holds the digest. Any other
    /// number of inputs is refused, and the layout left as it was.
    pub fn hash<const L: usize>(
        chip: &PoseidonChip,
        layouter: &mut Layouter,
        name: RegionName,
        inputs: [AssignedCell; L],
    ) -> (r: Result<AssignedCell, Error>)
        requires
            old(layouter).wf(),
        ensures
            final(layouter).wf(),
            forall|instance: Seq<nat>| #[trigger]
                satisfied(final(layouter).ops@, instance) <==> satisfied(
                    old(layouter).ops@,
                    instance,
                ),
            r is Ok <==> (L == 2 || L == 3),
            r matches Err(e) ==> {
                &&& e == (Error::Arity { gadget: Gadget::Hash })
                &&& final(layouter).ops@ == old(layouter).ops@
                &&& final(layouter).regions == old(layouter).regions
            },
            r matches Ok(output) ==> {
                &&& output == hash_output(*chip, old(layouter).regions, cell_values(inputs@))
                &&& output.value@ == poseidon(cell_values(inputs@))
                &&& final(layouter).regions == old(layouter).regions + 1
                &&& final(layouter).ops@ == old(layouter).ops@ + hash_ops(name, inputs@, output)
            },
    {
        if L == 2 {
            let digest = commit2(&inputs[0].value, &inputs[1].value);
            let region = layouter.assign_region(name);
            let output = AssignedCell {
                cell: Cell { region, column: chip.config.state[0].index, offset: 0 },
                value: digest,
            };
            layouter.push(Op::Hash2 { left: inputs[0], right: inputs[1], output });
            proof {
                assert(cell_values(inputs@) =~= seq![inputs[0].value@, inputs[1].value@]);
                lemma_fe_of_view(digest);
            }
            Ok(output)
        } else if L == 3 {
            let digest = commit3(&inputs[0].value, &inputs[1].value, &inputs[2].value);
            let region = layouter.assign_region(name);
            let output = AssignedCell {
                cell: Cell { region, column: chip.config.state[0].index, offset: 0 },
                value: digest,
            };
            layouter.push(
                Op::Hash3 { first: inputs[0], second: inputs[1], third: inputs[2], output },
            );
            proof {
                assert(cell_values(inputs@) =~= seq![
                    inputs[0].value@,
                    inputs[1].value@,
                    inputs[2].value@,
                ]);
                lemma_fe_of_view(digest);
            }
            Ok(output)
        } else {
            Err(Error::Arity { gadget: Gadget::Hash })
        }
    }
}

} // verus!
