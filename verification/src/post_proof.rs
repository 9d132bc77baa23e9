//! The post proof circuit. It holds the witness of a post made under a claim;
//! its shape declares no column and its synthesis lays nothing out.

use crate::cs::{columns_grown, ConstraintSystem};
use crate::error::Error;
use crate::field::Fe;
use crate::layouter::Layouter;
use vstd::prelude::*;

verus! {

/// The witness of one post.
#[derive(Clone, Debug, PartialEq, Eq)]
pub struct PostProofCircuit {
    pub claim_hash: Fe,
    pub post_hash: Fe,
    pub merkle_root: Fe,
    pub merkle_proof: Vec<Fe>,
    pub leaf_index: usize,
}

impl PostProofCircuit {
    /// The circuit without a witness, of the same shape: a path of as many
    /// siblings, every field element zero.
    pub fn without_witnesses(&self) -> (blank: PostProofCircuit)
        ensures
            blank.claim_hash@ == 0,
            blank.post_hash@ == 0,
            blank.merkle_root@ == 0,
            blank.merkle_proof@.len() == self.merkle_proof@.len(),
            forall|i: int|
                0 <= i < blank.merkle_proof@.len() ==> (#[trigger] blank.merkle_proof@[i])@ == 0,
            blank.leaf_index == 0,
    {
        PostProofCircuit {
            claim_hash: Fe::zero(),
            post_hash: Fe::zero(),
            merkle_root: Fe::zero(),
            merkle_proof: crate::field::zeros(self.merkle_proof.len()),
            leaf_index: 0,
        }
    }

    /// Declares nothing: the circuit has no columns or gates of its own.
    pub fn configure(meta: &mut ConstraintSystem)
        ensures
            columns_grown(*old(meta), *final(meta), 0, 0, 0, 0),
            final(meta).equality@ == old(meta).equality@,
            final(meta).constants@ == old(meta).constants@,
            final(meta).gates@ == old(meta).gates@,
            final(meta).chips@ == old(meta).chips@,
    {
    }

    /// Lays nothing out, and succeeds.
    pub fn synthesize(&self, layouter: &mut Layouter) -> (r: Result<(), Error>)
        ensures
            r is Ok,
            final(layouter).ops@ == old(layouter).ops@,
            final(layouter).regions == old(layouter).regions,
    {
        Ok(())
    }
}

} // verus!
