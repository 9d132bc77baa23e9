use halo2curves::bn256::{Fr, G1Affine};
use halo2curves::ff::Field;
use halo2curves::group::Curve;
use zk_claims::cs::{ChipConfig, Column, ColumnKind, ConstraintSystem};
use zk_claims::curve::Scalar;
use zk_claims::error::{Error, Gadget};
use zk_claims::field::Fe;
use zk_claims::gadgets::merkle::MerkleGadget;
use zk_claims::gadgets::poseidon::{commit2, commit3};
use zk_claims::gadgets::signature::SignatureConfig;
use zk_claims::identity_claim::IdentityClaimCircuit;
use zk_claims::layouter::{AssignedCell, Cell, Layouter, Op, RegionName};
use zk_claims::uint::U256;

fn fe_of(bytes: [u8; 32]) -> Fe {
    Fe::from_u256(U256::from_le_bytes(&bytes)).unwrap()
}

/// The digest that is signed for a claim: its hash commitment, reduced into the
/// scalar field of the signature curve.
fn digest_of(claim_hash: &Fe) -> Fr {
    let reduced = Scalar::reduce(&claim_hash.to_u256()).to_u256();
    Fr::from_raw([reduced.l0, reduced.l1, reduced.l2, reduced.l3])
}

/// A claim of `value` in `min ..= max`, committed at the leaf `leaf_index` below
/// the siblings `path`, and signed with a fixed key.
fn claim(value: u64, min: u64, max: u64, path: &[u64], leaf_index: usize) -> IdentityClaimCircuit {
    let (value, min, max) = (Fe::from_u64(value), Fe::from_u64(min), Fe::from_u64(max));
    let claim_hash = commit3(&value, &min, &max);
    let merkle_proof: Vec<Fe> = path.iter().map(|s| Fe::from_u64(*s)).collect();
    let sides: Vec<bool> = (0..path.len()).map(|i| (leaf_index >> i) & 1 == 1).collect();
    let merkle_root = MerkleGadget::recompute_root(&claim_hash, &merkle_proof, &sides).unwrap();

    let secret = Fr::from(0xdecaf);
    let nonce = Fr::from(0xc0ffee);
    let z = digest_of(&claim_hash);
    let public_key = (G1Affine::generator() * secret).to_affine();
    let big_r = (G1Affine::generator() * nonce).to_affine();
    let mut wide = [0u8; 64];
    wide[..32].copy_from_slice(&big_r.x.to_bytes());
    let r = <Fr as halo2curves::ff::FromUniformBytes<64>>::from_uniform_bytes(&wide);
    let s = nonce.invert().unwrap() * (z + r * secret);

    IdentityClaimCircuit {
        claim_hash,
        merkle_root,
        merkle_proof,
        leaf_index,
        value,
        min,
        max,
        signature_hash: fe_of(z.to_bytes()),
        sig_r: fe_of(r.to_bytes()),
        sig_s: fe_of(s.to_bytes()),
        pk_x: fe_of(public_key.x.to_bytes()),
        pk_y: fe_of(public_key.y.to_bytes()),
    }
}

#[test]
fn the_claim_of_forty_two_is_accepted_under_its_root_alone() {
    let claim = claim(42, 0, 100, &[7, 9], 2);
    let leaf = commit3(&Fe::from_u64(42), &Fe::from_u64(0), &Fe::from_u64(100));
    let root = commit2(&Fe::from_u64(9), &commit2(&leaf, &Fe::from_u64(7)));
    assert_eq!(claim.claim_hash, leaf);
    assert_eq!(claim.merkle_root, root);
    assert_eq!(claim.public_inputs(), vec![root]);
    assert_eq!(claim.accepts(&vec![root]), Ok(true));

    let off_by_one = fe_of({
        let mut limbs = root.to_u256();
        limbs.l0 ^= 1;
        let mut bytes = [0u8; 32];
        bytes[0..8].copy_from_slice(&limbs.l0.to_le_bytes());
        bytes[8..16].copy_from_slice(&limbs.l1.to_le_bytes());
        bytes[16..24].copy_from_slice(&limbs.l2.to_le_bytes());
        bytes[24..32].copy_from_slice(&limbs.l3.to_le_bytes());
        bytes
    });
    assert_ne!(off_by_one, root);
    assert_eq!(claim.accepts(&vec![off_by_one]), Ok(false));
    assert_eq!(claim.accepts(&vec![]), Ok(false));
    assert_eq!(claim.accepts(&vec![root, off_by_one]), Ok(true));
}

#[test]
fn valid_claims_are_accepted_wherever_the_value_sits_in_its_range() {
    for (value, min, max) in [(0, 0, 100), (100, 0, 100), (42, 0, 100), (5, 5, 5)] {
        let claim = claim(value, min, max, &[1, 2, 3], 5);
        assert_eq!(claim.accepts(&claim.public_inputs()), Ok(true));
    }
    let shallow = claim(1, 0, 2, &[], 0);
    assert_eq!(shallow.merkle_root, shallow.claim_hash);
    assert_eq!(shallow.accepts(&shallow.public_inputs()), Ok(true));
}

#[test]
fn a_value_one_beyond_a_bound_is_rejected() {
    for (value, min, max) in [(101, 0, 100), (9, 10, 100), (6, 5, 5), (4, 5, 5)] {
        let claim = claim(value, min, max, &[7, 9], 2);
        assert_eq!(claim.accepts(&claim.public_inputs()), Ok(false));
    }
}

#[test]
fn a_wrong_path_or_a_wrong_index_is_rejected() {
    let good = claim(42, 0, 100, &[7, 9], 2);
    let root = good.public_inputs();
    let mut wrong_sibling = good.clone();
    wrong_sibling.merkle_proof[1] = Fe::from_u64(10);
    assert_eq!(wrong_sibling.accepts(&root), Ok(false));
    for index in [0, 1, 3] {
        let mut wrong_index = good.clone();
        wrong_index.leaf_index = index;
        assert_eq!(wrong_index.accepts(&root), Ok(false));
    }
    let mut same_bits = good.clone();
    same_bits.leaf_index = 6;
    assert_eq!(same_bits.accepts(&root), Ok(true));
    let mut shorter = good.clone();
    shorter.merkle_proof.pop();
    assert_eq!(shorter.accepts(&root), Ok(false));
}

#[test]
fn a_wrong_signature_is_rejected() {
    let good = claim(42, 0, 100, &[7, 9], 2);
    let root = good.public_inputs();
    let mut wrong_s = good.clone();
    wrong_s.sig_s = good.sig_s.sub(&Fe::from_u64(1));
    assert_eq!(wrong_s.accepts(&root), Ok(false));
    let mut wrong_r = good.clone();
    wrong_r.sig_r = good.sig_r.sub(&Fe::from_u64(1));
    assert_eq!(wrong_r.accepts(&root), Ok(false));
    let mut wrong_digest = good.clone();
    wrong_digest.signature_hash = good.signature_hash.sub(&Fe::from_u64(1));
    assert_eq!(wrong_digest.accepts(&root), Ok(false));
    let mut zero_s = good.clone();
    zero_s.sig_s = Fe::zero();
    assert_eq!(zero_s.accepts(&root), Ok(false));
}

#[test]
fn a_key_or_a_scalar_that_cannot_be_laid_out_stops_synthesis() {
    let good = claim(42, 0, 100, &[7, 9], 2);
    let root = good.public_inputs();
    let largest = Fe::zero().sub(&Fe::from_u64(1));
    let conversion = Err(Error::Conversion { gadget: Gadget::Signature });

    let mut off_curve = good.clone();
    off_curve.pk_y = good.pk_y.sub(&Fe::from_u64(1));
    assert_eq!(off_curve.accepts(&root), Err(Error::MalformedPoint));
    let mut no_key = good.clone();
    no_key.pk_x = Fe::zero();
    no_key.pk_y = Fe::zero();
    assert_eq!(no_key.accepts(&root), Err(Error::MalformedPoint));

    let mut wide_key = good.clone();
    wide_key.pk_x = largest;
    assert_eq!(wide_key.accepts(&root), conversion);
    let mut wide_r = good.clone();
    wide_r.sig_r = largest;
    assert_eq!(wide_r.accepts(&root), conversion);
    let mut wide_s = good.clone();
    wide_s.sig_s = largest;
    assert_eq!(wide_s.accepts(&root), conversion);
    let mut wide_digest = good.clone();
    wide_digest.signature_hash = largest;
    assert_eq!(wide_digest.accepts(&root), conversion);

    // The key is looked at before the signature, and its conversion before its curve.
    let mut both = off_curve.clone();
    both.sig_r = largest;
    assert_eq!(both.accepts(&root), Err(Error::MalformedPoint));
    both.pk_x = largest;
    assert_eq!(both.accepts(&root), conversion);

    let mut meta = ConstraintSystem::new();
    let config = IdentityClaimCircuit::configure(&mut meta);
    let mut layouter = Layouter::new();
    assert_eq!(off_curve.synthesize(config, &mut layouter), Err(Error::MalformedPoint));
    assert!(layouter.ops.is_empty());
    assert_eq!(layouter.regions, 0);
}

#[test]
fn the_blank_circuit_keeps_the_shape_and_holds_only_zeros() {
    let full = claim(42, 0, 100, &[7, 9], 2);
    let blank = full.without_witnesses();
    assert_eq!(
        blank,
        IdentityClaimCircuit {
            claim_hash: Fe::zero(),
            merkle_root: Fe::zero(),
            merkle_proof: vec![Fe::zero(); 2],
            leaf_index: 0,
            value: Fe::zero(),
            min: Fe::zero(),
            max: Fe::zero(),
            signature_hash: Fe::zero(),
            sig_r: Fe::zero(),
            sig_s: Fe::zero(),
            pk_x: Fe::zero(),
            pk_y: Fe::zero(),
        }
    );
    assert_eq!(blank, claim(1, 0, 2, &[3, 4], 1).without_witnesses());
    assert_eq!(blank, blank.without_witnesses());
    assert!(claim(1, 0, 2, &[], 0).without_witnesses().merkle_proof.is_empty());
    // The zero key names no point of the curve.
    assert_eq!(blank.accepts(&blank.public_inputs()), Err(Error::MalformedPoint));
}

#[test]
fn the_blank_circuit_on_the_curve_can_be_laid_out() {
    let full = claim(42, 0, 100, &[7, 9], 2);
    let blank = full.without_witnesses_on_curve();
    let mut expected = full.without_witnesses();
    expected.pk_x = Fe::from_u64(1);
    expected.pk_y = Fe::from_u64(2);
    assert_eq!(blank, expected);

    let mut meta = ConstraintSystem::new();
    let config = IdentityClaimCircuit::configure(&mut meta);
    let mut of_blank = Layouter::new();
    let mut of_full = Layouter::new();
    assert_eq!(blank.synthesize(config, &mut of_blank), Ok(()));
    assert_eq!(full.synthesize(config, &mut of_full), Ok(()));
    assert_eq!(of_blank.regions, of_full.regions);
    assert_eq!(of_blank.ops.len(), of_full.ops.len());
    assert_eq!(blank.accepts(&blank.public_inputs()), Ok(false));
}

#[test]
fn configure_lays_the_gadgets_out_one_after_another() {
    let mut meta = ConstraintSystem::new();
    let config = IdentityClaimCircuit::configure(&mut meta);
    let advice = |index| Column { kind: ColumnKind::Advice, index };
    let fixed = |index| Column { kind: ColumnKind::Fixed, index };
    assert_eq!(config.range.value, advice(0));
    assert_eq!(config.range.high, advice(4));
    assert_eq!(config.range.floor, advice(5));
    assert!(config.range.is_wf());
    assert_eq!(config.signature, SignatureConfig { limbs: 4, bits: 68, composition_bits: 17 });
    assert_eq!(config.poseidon.state, [advice(6), advice(7), advice(8)]);
    assert_eq!(config.poseidon.partial_sbox, advice(9));
    assert_eq!(config.poseidon.rc_a, [fixed(0), fixed(1), fixed(2)]);
    assert_eq!(config.poseidon.rc_b, [fixed(3), fixed(4), fixed(5)]);
    assert_eq!(config.instance, Column { kind: ColumnKind::Instance, index: 0 });
    assert_eq!(meta.advice.len(), 10);
    assert_eq!(meta.fixed.len(), 6);
    assert_eq!(meta.instance.len(), 1);
    assert_eq!(meta.selectors.len(), 3);
    assert_eq!(
        meta.equality,
        vec![advice(0), advice(1), advice(2), config.poseidon.state[0], config.instance]
    );
    assert_eq!(
        meta.chips,
        vec![
            ChipConfig::MainGate,
            ChipConfig::RangeChip { composition_bits: 17 },
            ChipConfig::Poseidon { config: config.poseidon },
        ]
    );
    assert_eq!(meta.constants, vec![fixed(3)]);
    assert_eq!(meta.gates.len(), 3);

    let mut again = ConstraintSystem::new();
    let second = IdentityClaimCircuit::configure(&mut again);
    assert_eq!(again, meta);
    assert_eq!(second, config);
}

#[test]
fn synthesis_shares_the_cells_of_the_claim_between_the_gadgets() {
    let claim = claim(42, 0, 100, &[7, 9], 2);
    let mut meta = ConstraintSystem::new();
    let config = IdentityClaimCircuit::configure(&mut meta);
    let mut layouter = Layouter::new();
    assert_eq!(claim.synthesize(config, &mut layouter), Ok(()));
    assert_eq!(layouter.regions, 2 + 4);

    let at = |region, column: Column, offset, value| AssignedCell {
        cell: Cell { region, column: column.index, offset },
        value,
    };
    let value = at(0, config.range.value, 0, claim.value);
    let min = at(0, config.range.min, 0, claim.min);
    let max = at(0, config.range.max, 0, claim.max);
    let seven = at(0, config.range.value, 1, Fe::from_u64(7));
    let nine = at(0, config.range.value, 2, Fe::from_u64(9));
    let state = config.poseidon.state[0];
    let leaf = at(1, state, 0, claim.claim_hash);
    let level0 = at(2, state, 0, commit2(&claim.claim_hash, &Fe::from_u64(7)));
    let root = at(3, state, 0, claim.merkle_root);
    let ops = &layouter.ops;
    assert_eq!(
        ops[..14],
        [
            Op::Region { name: RegionName::Claim },
            Op::Assign { cell: value },
            Op::Assign { cell: min },
            Op::Assign { cell: max },
            Op::Assign { cell: seven },
            Op::Assign { cell: nine },
            Op::Region { name: RegionName::ClaimHash },
            Op::Hash3 { first: value, second: min, third: max, output: leaf },
            Op::Region { name: RegionName::MerkleHash { level: 0 } },
            Op::Hash2 { left: leaf, right: seven, output: level0 },
            Op::Region { name: RegionName::MerkleHash { level: 1 } },
            Op::Hash2 { left: nine, right: level0, output: root },
            Op::Instance { cell: root, column: config.instance, row: 0 },
            Op::Region { name: RegionName::RangeCheck },
        ]
    );
    // The range assertion copies in the very cells that were hashed.
    assert_eq!(ops[16], Op::Equal { left: value, right: at(4, config.range.value, 0, claim.value) });
    assert_eq!(ops[18], Op::Equal { left: min, right: at(4, config.range.min, 0, claim.min) });
    assert_eq!(ops[20], Op::Equal { left: max, right: at(4, config.range.max, 0, claim.max) });
    assert_eq!(ops[ops.len() - 8], Op::Region { name: RegionName::EcdsaVerify });
    assert!(matches!(ops[ops.len() - 1], Op::Ecdsa { .. }));
    assert!(layouter.is_satisfied(&claim.public_inputs()));
    assert!(!layouter.is_satisfied(&vec![claim.claim_hash]));
}
