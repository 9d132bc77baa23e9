use std::collections::HashMap;

use halo2_gadgets::poseidon::primitives::{ConstantLength, P128Pow5T3};
use halo2_gadgets::poseidon::{Pow5Chip, Pow5Config};
use halo2_proofs::circuit::{AssignedCell, Layouter, SimpleFloorPlanner, Value};
use halo2_proofs::dev::MockProver;
use halo2_proofs::pasta::Fp;
use halo2_proofs::plonk::{
    Advice, Circuit, Column, ConstraintSystem, Error, Expression, Fixed, Instance, Selector,
    VirtualCells,
};
use halo2_proofs::poly::Rotation;
use halo2curves::bn256::{Fr, G1Affine};
use halo2curves::ff::Field;
use halo2curves::group::Curve;
use zk_claims::cs;
use zk_claims::curve::Scalar;
use zk_claims::field::Fe;
use zk_claims::gadgets::merkle::MerkleGadget;
use zk_claims::gadgets::poseidon::{commit3, PoseidonConfig};
use zk_claims::group_access::GroupAccessCircuit;
use zk_claims::identity_claim::IdentityClaimCircuit;
use zk_claims::layouter::{self, Op};
use zk_claims::uint::U256;

/// What the library decides of a circuit: its shape, its blank, and its layout.
trait Decided: Clone {
    fn shape() -> (cs::ConstraintSystem, PoseidonConfig);
    fn blank(&self) -> Self;
    fn plan(&self) -> Result<layouter::Layouter, zk_claims::error::Error>;
}

impl Decided for IdentityClaimCircuit {
    fn shape() -> (cs::ConstraintSystem, PoseidonConfig) {
        let mut shape = cs::ConstraintSystem::new();
        let config = IdentityClaimCircuit::configure(&mut shape);
        (shape, config.poseidon)
    }

    fn blank(&self) -> Self {
        self.without_witnesses_on_curve()
    }

    fn plan(&self) -> Result<layouter::Layouter, zk_claims::error::Error> {
        let config = IdentityClaimCircuit::configure(&mut cs::ConstraintSystem::new());
        let mut plan = layouter::Layouter::new();
        self.synthesize(config, &mut plan)?;
        Ok(plan)
    }
}

impl Decided for GroupAccessCircuit {
    fn shape() -> (cs::ConstraintSystem, PoseidonConfig) {
        let mut shape = cs::ConstraintSystem::new();
        let config = GroupAccessCircuit::configure(&mut shape);
        (shape, config.poseidon)
    }

    fn blank(&self) -> Self {
        self.without_witnesses()
    }

    fn plan(&self) -> Result<layouter::Layouter, zk_claims::error::Error> {
        let config = GroupAccessCircuit::configure(&mut cs::ConstraintSystem::new());
        let mut plan = layouter::Layouter::new();
        self.synthesize(&config, &mut plan)?;
        Ok(plan)
    }
}

/// A circuit of the library on halo2, without the region of the signature:
/// every column, gate, assignment and constraint is the one that the library
/// chose.
#[derive(Clone, Debug)]
struct OnHalo2<C>(C);

#[derive(Clone, Debug)]
struct Handles {
    advice: Vec<Column<Advice>>,
    instance: Vec<Column<Instance>>,
    selectors: Vec<Selector>,
    poseidon: Pow5Config<Fp, 3, 2>,
}

type Key = (usize, usize, usize);
type Cells = HashMap<Key, AssignedCell<Fp, Fp>>;

fn field(element: &Fe) -> Fp {
    let limbs = element.to_u256();
    Fp::from_raw([limbs.l0, limbs.l1, limbs.l2, limbs.l3])
}

fn key(cell: &layouter::Cell) -> Key {
    (cell.region, cell.column, cell.offset)
}

fn find(earlier: &Cells, fresh: &Cells, cell: &layouter::AssignedCell) -> AssignedCell<Fp, Fp> {
    fresh.get(&key(&cell.cell)).or_else(|| earlier.get(&key(&cell.cell))).cloned().unwrap()
}

fn lower(cells: &mut VirtualCells<'_, Fp>, advice: &[Column<Advice>], poly: &cs::Expression) -> Expression<Fp> {
    match poly {
        cs::Expression::Constant(c) => Expression::Constant(Fp::from(*c)),
        cs::Expression::Advice { column, rotation } => {
            cells.query_advice(advice[*column], Rotation(*rotation as i32))
        }
        cs::Expression::Negated(e) => -lower(cells, advice, e),
        cs::Expression::Sum(a, b) => lower(cells, advice, a) + lower(cells, advice, b),
        cs::Expression::Product(a, b) => lower(cells, advice, a) * lower(cells, advice, b),
    }
}

fn hash<const L: usize>(
    config: &Pow5Config<Fp, 3, 2>,
    mut layouter: impl Layouter<Fp>,
    message: [AssignedCell<Fp, Fp>; L],
) -> Result<AssignedCell<Fp, Fp>, Error> {
    let chip = Pow5Chip::construct(config.clone());
    let hasher = halo2_gadgets::poseidon::Hash::<
        Fp,
        Pow5Chip<Fp, 3, 2>,
        P128Pow5T3,
        ConstantLength<L>,
        3,
        2,
    >::init(chip, layouter.namespace(|| "init"))?;
    hasher.hash(layouter, message)
}

impl<C: Decided> Circuit<Fp> for OnHalo2<C> {
    type Config = Handles;
    type FloorPlanner = SimpleFloorPlanner;

    fn without_witnesses(&self) -> Self {
        OnHalo2(self.0.blank())
    }

    fn configure(meta: &mut ConstraintSystem<Fp>) -> Handles {
        let (shape, poseidon) = C::shape();
        let advice: Vec<Column<Advice>> = (0..shape.advice.len()).map(|_| meta.advice_column()).collect();
        let fixed: Vec<Column<Fixed>> = (0..shape.fixed.len()).map(|_| meta.fixed_column()).collect();
        let instance: Vec<Column<Instance>> =
            (0..shape.instance.len()).map(|_| meta.instance_column()).collect();
        let selectors: Vec<Selector> = (0..shape.selectors.len()).map(|_| meta.selector()).collect();
        for column in &shape.equality {
            match column.kind {
                cs::ColumnKind::Advice => meta.enable_equality(advice[column.index]),
                cs::ColumnKind::Fixed => meta.enable_equality(fixed[column.index]),
                cs::ColumnKind::Instance => meta.enable_equality(instance[column.index]),
            }
        }
        for column in &shape.constants {
            meta.enable_constant(fixed[column.index]);
        }
        for gate in &shape.gates {
            meta.create_gate("range", |cells| {
                let selector = cells.query_selector(selectors[gate.selector.index]);
                gate.polys
                    .iter()
                    .map(|poly| selector.clone() * lower(cells, &advice, poly))
                    .collect::<Vec<_>>()
            });
        }
        let poseidon = Pow5Chip::configure::<P128Pow5T3>(
            meta,
            poseidon.state.map(|c| advice[c.index]),
            advice[poseidon.partial_sbox.index],
            poseidon.rc_a.map(|c| fixed[c.index]),
            poseidon.rc_b.map(|c| fixed[c.index]),
        );
        Handles { advice, instance, selectors, poseidon }
    }

    fn synthesize(&self, config: Handles, mut layouter: impl Layouter<Fp>) -> Result<(), Error> {
        let plan = self.0.plan().map_err(|_| Error::Synthesis)?;
        let mut cells = Cells::new();
        let mut start = 0;
        while start < plan.ops.len() {
            let next = plan.region_end(start);
            let steps = &plan.ops[start..next];
            if steps.iter().any(|op| matches!(op, Op::Assign { .. } | Op::Enable { .. })) {
                let earlier = &cells;
                let fresh = layouter.assign_region(
                    || "region",
                    |mut region| {
                        let mut fresh = Cells::new();
                        for op in steps {
                            match op {
                                Op::Assign { cell } => {
                                    let assigned = region.assign_advice(
                                        || "",
                                        config.advice[cell.cell.column],
                                        cell.cell.offset,
                                        || Value::known(field(&cell.value)),
                                    )?;
                                    fresh.insert(key(&cell.cell), assigned);
                                }
                                Op::Enable { selector, offset, .. } => {
                                    config.selectors[selector.index].enable(&mut region, *offset)?;
                                }
                                Op::Equal { left, right } => {
                                    let left = find(earlier, &fresh, left);
                                    let right = find(earlier, &fresh, right);
                                    region.constrain_equal(left.cell(), right.cell())?;
                                }
                                _ => {}
                            }
                        }
                        Ok(fresh)
                    },
                )?;
                cells.extend(fresh);
            }
            let none = Cells::new();
            for op in steps {
                match op {
                    Op::Hash2 { left, right, output } => {
                        let message = [find(&cells, &none, left), find(&cells, &none, right)];
                        let digest = hash(&config.poseidon, layouter.namespace(|| "hash"), message)?;
                        digest.value().assert_if_known(|v| **v == field(&output.value));
                        cells.insert(key(&output.cell), digest);
                    }
                    Op::Hash3 { first, second, third, output } => {
                        let message = [
                            find(&cells, &none, first),
                            find(&cells, &none, second),
                            find(&cells, &none, third),
                        ];
                        let digest = hash(&config.poseidon, layouter.namespace(|| "hash"), message)?;
                        digest.value().assert_if_known(|v| **v == field(&output.value));
                        cells.insert(key(&output.cell), digest);
                    }
                    Op::Instance { cell, column, row } => {
                        let cell = find(&cells, &none, cell);
                        layouter.constrain_instance(cell.cell(), config.instance[column.index], *row)?;
                    }
                    _ => {}
                }
            }
            start = next;
        }
        Ok(())
    }
}

fn fe_of(bytes: [u8; 32]) -> Fe {
    Fe::from_u256(U256::from_le_bytes(&bytes)).unwrap()
}

fn claim(value: u64, min: u64, max: u64, path: &[u64], leaf_index: usize) -> IdentityClaimCircuit {
    let (value, min, max) = (Fe::from_u64(value), Fe::from_u64(min), Fe::from_u64(max));
    let claim_hash = commit3(&value, &min, &max);
    let merkle_proof: Vec<Fe> = path.iter().map(|s| Fe::from_u64(*s)).collect();
    let sides: Vec<bool> = (0..path.len()).map(|i| (leaf_index >> i) & 1 == 1).collect();
    let merkle_root = MerkleGadget::recompute_root(&claim_hash, &merkle_proof, &sides).unwrap();
    let secret = Fr::from(0xdecaf);
    let nonce = Fr::from(0xc0ffee);
    let reduced = Scalar::reduce(&claim_hash.to_u256()).to_u256();
    let z = Fr::from_raw([reduced.l0, reduced.l1, reduced.l2, reduced.l3]);
    let public_key = (G1Affine::generator() * secret).to_affine();
    let big_r = (G1Affine::generator() * nonce).to_affine();
    let mut wide = [0u8; 64];
    wide[..32].copy_from_slice(&big_r.x.to_bytes());
    let r = <Fr as halo2curves::ff::FromUniformBytes<64>>::from_uniform_bytes(&wide);
    let s = nonce.invert().unwrap() * (z + r * secret);
    IdentityClaimCircuit {
        claim_hash,
        merkle_root,
        merkle_proof,
        leaf_index,
        value,
        min,
        max,
        signature_hash: fe_of(z.to_bytes()),
        sig_r: fe_of(r.to_bytes()),
        sig_s: fe_of(s.to_bytes()),
        pk_x: fe_of(public_key.x.to_bytes()),
        pk_y: fe_of(public_key.y.to_bytes()),
    }
}

fn proves(claim: &IdentityClaimCircuit, root: &Fe) -> bool {
    let prover = MockProver::run(10, &OnHalo2(claim.clone()), vec![vec![field(root)]]).unwrap();
    prover.verify().is_ok()
}

#[test]
fn the_mock_prover_accepts_the_claim_of_forty_two_under_its_root() {
    let claim = claim(42, 0, 100, &[7, 9], 2);
    assert!(proves(&claim, &claim.merkle_root));
    assert_eq!(claim.accepts(&vec![claim.merkle_root]), Ok(true));
}

#[test]
fn the_mock_prover_rejects_a_root_off_by_one() {
    let claim = claim(42, 0, 100, &[7, 9], 2);
    let off_by_one = claim.merkle_root.sub(&Fe::from_u64(1));
    assert!(!proves(&claim, &off_by_one));
    assert_eq!(claim.accepts(&vec![off_by_one]), Ok(false));
}

#[test]
fn the_mock_prover_accepts_values_on_the_bounds_and_rejects_those_beyond() {
    for (value, min, max, valid) in [
        (0, 0, 100, true),
        (100, 0, 100, true),
        (101, 0, 100, false),
        (9, 10, 100, false),
        (u64::MAX, 0, u64::MAX, true),
    ] {
        let claim = claim(value, min, max, &[3], 1);
        assert_eq!(proves(&claim, &claim.merkle_root), valid);
        assert_eq!(claim.accepts(&vec![claim.merkle_root]), Ok(valid));
    }
}

#[test]
fn the_mock_prover_lays_out_the_blank_claim_as_it_does_the_claim() {
    let claim = claim(42, 0, 100, &[7, 9], 2);
    let blank = claim.without_witnesses_on_curve();
    assert!(MockProver::run(10, &OnHalo2(blank), vec![vec![field(&claim.merkle_root)]]).is_ok());
    let zero_key = claim.without_witnesses();
    assert!(MockProver::run(10, &OnHalo2(zero_key), vec![vec![field(&claim.merkle_root)]]).is_err());
}

#[test]
fn the_mock_prover_rejects_bounds_that_wrap_around() {
    let mut claim = claim(2, 0, 5, &[3], 1);
    claim.min = Fe::zero().sub(&Fe::from_u64(1));
    let leaf = commit3(&claim.value, &claim.min, &claim.max);
    claim.merkle_root = MerkleGadget::recompute_root(&leaf, &claim.merkle_proof, &[true]).unwrap();
    assert!(!proves(&claim, &claim.merkle_root));
    assert_eq!(claim.accepts(&vec![claim.merkle_root]), Ok(false));
}

#[test]
fn the_mock_prover_rejects_a_wrong_index() {
    let mut claim = claim(42, 0, 100, &[7, 9, 11], 5);
    assert!(proves(&claim, &claim.merkle_root));
    claim.leaf_index = 4;
    assert!(!proves(&claim, &claim.merkle_root));
}

fn membership(leaf: u64, path: &[u64], sides: &[bool]) -> GroupAccessCircuit {
    let leaf = Fe::from_u64(leaf);
    let path_elements: Vec<Fe> = path.iter().map(|e| Fe::from_u64(*e)).collect();
    let root = MerkleGadget::recompute_root(&leaf, &path_elements, sides).unwrap();
    GroupAccessCircuit { leaf, path_elements, path_indices: sides.to_vec(), root }
}

fn admits(circuit: &GroupAccessCircuit, root: &Fe) -> bool {
    let prover = MockProver::run(10, &OnHalo2(circuit.clone()), vec![vec![field(root)]]).unwrap();
    prover.verify().is_ok()
}

#[test]
fn the_mock_prover_accepts_a_membership_under_the_root_of_its_walk() {
    let circuit = membership(5, &[7, 11], &[false, true]);
    assert!(admits(&circuit, &circuit.root));
    assert_eq!(circuit.accepts(&circuit.public_inputs()), Ok(true));
    let blank = circuit.without_witnesses();
    assert!(MockProver::run(10, &OnHalo2(blank), vec![vec![field(&circuit.root)]]).is_ok());
}

#[test]
fn the_mock_prover_rejects_a_membership_with_a_flipped_side() {
    let circuit = membership(5, &[7, 11], &[false, true]);
    let mut flipped = circuit.clone();
    flipped.path_indices[0] = true;
    assert!(!admits(&flipped, &circuit.root));
    assert!(!admits(&circuit, &circuit.root.sub(&Fe::from_u64(1))));
    assert_eq!(flipped.accepts(&circuit.public_inputs()), Ok(false));
}
