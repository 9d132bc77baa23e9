//! The witness side of a circuit: the regions, cell assignments and constraints
//! that synthesis lays out, in the order in which it lays them out.

use crate::cs::{Column, Selector};
use crate::curve::{base_order, on_curve, scalar_order, Base, Point, Scalar};
use crate::error::{Error, Gadget};
use crate::field::Fe;
use crate::gadgets::poseidon::{commit2, commit3, poseidon};
use crate::gadgets::range_check::{in_range, range_holds};
use crate::gadgets::signature::{
    ecdsa_valid, ecdsa_verify, AssignedEcdsaSig, AssignedInteger, AssignedPublicKey, Limbs,
};
use vstd::prelude::*;

verus! {

/// What a region is for.
#[derive(Clone, Copy, Debug, PartialEq, Eq, Structural)]
pub enum RegionName {
    /// The claim's own witnesses: value, bounds and Merkle siblings.
    Claim,
    /// A membership's own witnesses: leaf, siblings and sides.
    Membership,
    /// The hash commitment of the claim.
    ClaimHash,
    /// The node hash of one level of the Merkle path, counted from the leaf.
    MerkleHash { level: usize },
    /// The range assertion.
    RangeCheck,
    /// The signature verification.
    EcdsaVerify,
}

/// The place of a cell: its region, its advice column and its row within the region.
#[derive(Clone, Copy, Debug, PartialEq, Eq, Structural)]
pub struct Cell {
    pub region: usize,
    pub column: usize,
    pub offset: usize,
}

/// A cell together with the value assigned to it.
#[derive(Clone, Copy, Debug, PartialEq, Eq, Structural)]
pub struct AssignedCell {
    pub cell: Cell,
    pub value: Fe,
}

/// One step of synthesis.
#[derive(Clone, Copy, Debug, PartialEq, Eq, Structural)]
pub enum Op {
    /// Opens the next region.
    Region { name: RegionName },
    /// Assigns a witness value to an advice cell.
    Assign { cell: AssignedCell },
    /// Enables a selector on a row of a region.
    Enable { selector: Selector, region: usize, offset: usize },
    /// Constrains two cells to hold the same value.
    Equal { left: AssignedCell, right: AssignedCell },
    /// Constrains `output` to the hash commitment of two cells.
    Hash2 { left: AssignedCell, right: AssignedCell, output: AssignedCell },
    /// Constrains `output` to the hash commitment of three cells.
    Hash3 { first: AssignedCell, second: AssignedCell, third: AssignedCell, output: AssignedCell },
    /// Stands for the gates of the range gadget on the row of `value`, `min` and
    /// `max` and on the two running sums below it: together they hold where
    /// `value` lies between `min` and `max`.
    Range { value: AssignedCell, min: AssignedCell, max: AssignedCell },
    /// Constrains a cell to the public input at `row` of an instance column.
    Instance { cell: AssignedCell, column: Column, row: usize },
    /// Assigns the limbs of a non-native integer and bounds each of them.
    Integer { integer: AssignedInteger },
    /// Makes the point of a public key from its two coordinates.
    PublicKey { key: AssignedPublicKey },
    /// Constrains a signature to be valid for a public key and a message digest.
    Ecdsa { signature: AssignedEcdsaSig, public_key: AssignedPublicKey, message: AssignedInteger },
}

/// Whether the coordinates of a key are base field elements that name a point
/// of the signature curve other than the identity.
pub open spec fn key_holds(key: AssignedPublicKey) -> bool {
    &&& key.x.value.value() < base_order()
    &&& key.y.value.value() < base_order()
    &&& on_curve(key.x.value.value(), key.y.value.value())
    &&& (key.x.value.value(), key.y.value.value()) != (0nat, 0nat)
}

/// Whether signature and digest are scalars, the key's coordinates base field
/// elements, and the signature valid.
pub open spec fn signature_holds(
    signature: AssignedEcdsaSig,
    public_key: AssignedPublicKey,
    message: AssignedInteger,
) -> bool {
    &&& signature.r.value.value() < scalar_order()
    &&& signature.s.value.value() < scalar_order()
    &&& message.value.value() < scalar_order()
    &&& public_key.x.value.value() < base_order()
    &&& public_key.y.value.value() < base_order()
    &&& ecdsa_valid(
        signature.r.value.value(),
        signature.s.value.value(),
        public_key.x.value.value(),
        public_key.y.value.value(),
        message.value.value(),
    )
}

/// Whether a step's constraint holds of the values it names, given the public inputs.
pub open spec fn op_holds(op: Op, instance: Seq<nat>) -> bool {
    match op {
        Op::Equal { left, right } => left.value@ == right.value@,
        Op::Hash2 { left, right, output } => output.value@ == poseidon(
            seq![left.value@, right.value@],
        ),
        Op::Hash3 { first, second, third, output } => output.value@ == poseidon(
            seq![first.value@, second.value@, third.value@],
        ),
        Op::Range { value, min, max } => in_range(value.value@, min.value@, max.value@),
        Op::Instance { cell, column, row } => row < instance.len() && cell.value@
            == instance[row as int],
        Op::Integer { integer } => integer.wf(),
        Op::PublicKey { key } => key_holds(key),
        Op::Ecdsa { signature, public_key, message } => signature_holds(
            signature,
            public_key,
            message,
        ),
        _ => true,
    }
}

/// Whether every constraint of a layout holds.
pub open spec fn satisfied(ops: Seq<Op>, instance: Seq<nat>) -> bool {
    forall|i: int| 0 <= i < ops.len() ==> op_holds(#[trigger] ops[i], instance)
}

/// A layout with one more step is satisfied where the layout before it was and
/// the step's constraint holds.
pub proof fn lemma_satisfied_push(ops: Seq<Op>, op: Op, instance: Seq<nat>)
    ensures
        satisfied(ops.push(op), instance) <==> satisfied(ops, instance) && op_holds(op, instance),
{
    let all = ops.push(op);
    if satisfied(all, instance) {
        assert forall|i: int| 0 <= i < ops.len() implies op_holds(#[trigger] ops[i], instance) by {
            assert(ops[i] == all[i]);
        }
        assert(op == all[ops.len() as int]);
    }
}

/// Whether `ops` already assigns to `cell` a value other than `value`.
pub open spec fn conflicts(ops: Seq<Op>, cell: Cell, value: Fe) -> bool {
    exists|i: int|
        0 <= i < ops.len() && is_conflict(#[trigger] ops[i], cell, value)
}

/// Whether `op` assigns to `cell` a value other than `value`.
pub open spec fn is_conflict(op: Op, cell: Cell, value: Fe) -> bool {
    op matches Op::Assign { cell: c } && c.cell == cell && c.value != value
}

/// Whether `op` assigns a value to `cell`.
pub open spec fn is_assign(op: Op, cell: Cell) -> bool {
    op matches Op::Assign { cell: c } && c.cell == cell
}

/// Whether the cell that `op` assigns, if it assigns one, lies in one of the
/// first `regions` regions.
pub open spec fn in_opened(op: Op, regions: usize) -> bool {
    op matches Op::Assign { cell: c } ==> c.cell.region < regions
}

/// The integers of a vector of public inputs.
pub open spec fn instance_values(instance: Seq<Fe>) -> Seq<nat> {
    instance.map_values(|e: Fe| e@)
}

/// The layout that synthesis builds. Gadgets take it by exclusive reference, add
/// their own regions and constraints, and keep nothing of it.
#[derive(Clone, Debug, PartialEq, Eq)]
pub struct Layouter {
    pub ops: Vec<Op>,
    pub regions: usize,
}

impl Layouter {
    /// Every assignment lies in a region that has been opened, and no more
    /// regions are counted than there are steps.
    pub open spec fn wf(&self) -> bool {
        &&& self.regions <= self.ops@.len()
        &&& forall|i: int|
            0 <= i < self.ops@.len() ==> in_opened(#[trigger] self.ops@[i], self.regions)
    }

    /// An empty layout.
    pub fn new() -> (l: Layouter)
        ensures
            l.ops@ == Seq::<Op>::empty(),
            l.regions == 0,
            l.wf(),
    {
        Layouter { ops: Vec::new(), regions: 0 }
    }

    /// Opens the next region and returns its index.
    pub fn assign_region(&mut self, name: RegionName) -> (index: usize)
        requires
            old(self).wf(),
        ensures
            final(self).wf(),
            index == old(self).regions,
            final(self).regions == old(self).regions + 1,
            final(self).ops@ == old(self).ops@.push(Op::Region { name }),
            forall|instance: Seq<nat>| #[trigger]
                satisfied(final(self).ops@, instance) <==> satisfied(old(self).ops@, instance),
    {
        proof {
            assert forall|instance: Seq<nat>| #[trigger]
                satisfied(old(self).ops@.push(Op::Region { name }), instance) <==> satisfied(
                    old(self).ops@,
                    instance,
                ) by {
                lemma_satisfied_push(old(self).ops@, Op::Region { name }, instance);
            }
        }
        let index = self.regions;
        self.ops.push(Op::Region { name });
        let steps = self.ops.len();
        assert(index < steps);
        self.regions = index + 1;
        index
    }

    /// Assigns `value` to the cell at `offset` of `column` in `region`. Fails,
    /// and leaves the layout as it was, if the cell already holds another value.
    pub fn assign_advice(
        &mut self,
        gadget: Gadget,
        region: usize,
        column: Column,
        offset: usize,
        value: Fe,
    ) -> (r: Result<AssignedCell, Error>)
        ensures
            old(self).wf() && region < old(self).regions ==> final(self).wf(),
            final(self).regions == old(self).regions,
            r is Err <==> conflicts(
                old(self).ops@,
                Cell { region, column: column.index, offset },
                value,
            ),
            r matches Err(e) ==> e == (Error::Collision { gadget }) && final(self).ops@ == old(
                self,
            ).ops@,
            r matches Ok(c) ==> c == (AssignedCell {
                cell: Cell { region, column: column.index, offset },
                value,
            }) && final(self).ops@ == old(self).ops@.push(Op::Assign { cell: c }),
            forall|instance: Seq<nat>| #[trigger]
                satisfied(final(self).ops@, instance) <==> satisfied(old(self).ops@, instance),
    {
        proof {
            let added = Op::Assign {
                cell: AssignedCell { cell: Cell { region, column: column.index, offset }, value },
            };
            assert forall|instance: Seq<nat>| #[trigger]
                satisfied(old(self).ops@.push(added), instance) <==> satisfied(
                    old(self).ops@,
                    instance,
                ) by {
                lemma_satisfied_push(old(self).ops@, added, instance);
            }
        }
        let cell = Cell { region, column: column.index, offset };
        let mut i: usize = 0;
        while i < self.ops.len()
            invariant
                i <= self.ops.len(),
                self.ops@ == old(self).ops@,
                self.regions == old(self).regions,
                cell == (Cell { region, column: column.index, offset }),
                forall|j: int| 0 <= j < i ==> !is_conflict(#[trigger] self.ops@[j], cell, value),
            decreases self.ops.len() - i,
        {
            match self.ops[i] {
                Op::Assign { cell: c } => {
                    if c.cell == cell && c.value != value {
                        assert(is_conflict(old(self).ops@[i as int], cell, value));
                        return Err(Error::Collision { gadget });
                    }
                },
                _ => {},
            }
            i = i + 1;
        }
        let assigned = AssignedCell { cell, value };
        self.ops.push(Op::Assign { cell: assigned });
        Ok(assigned)
    }

    /// Enables `selector` on the row `offset` of `region`.
    pub fn enable_selector(&mut self, selector: Selector, region: usize, offset: usize)
        ensures
            old(self).wf() ==> final(self).wf(),
            final(self).regions == old(self).regions,
            final(self).ops@ == old(self).ops@.push(Op::Enable { selector, region, offset }),
            forall|instance: Seq<nat>| #[trigger]
                satisfied(final(self).ops@, instance) <==> satisfied(old(self).ops@, instance),
    {
        proof {
            let added = Op::Enable { selector, region, offset };
            assert forall|instance: Seq<nat>| #[trigger]
                satisfied(old(self).ops@.push(added), instance) <==> satisfied(
                    old(self).ops@,
                    instance,
                ) by {
                lemma_satisfied_push(old(self).ops@, added, instance);
            }
        }
        self.ops.push(Op::Enable { selector, region, offset });
    }

    /// Constrains two cells to hold the same value.
    pub fn constrain_equal(&mut self, left: AssignedCell, right: AssignedCell)
        ensures
            old(self).wf() ==> final(self).wf(),
            final(self).regions == old(self).regions,
            final(self).ops@ == old(self).ops@.push(Op::Equal { left, right }),
            forall|instance: Seq<nat>| #[trigger]
                satisfied(final(self).ops@, instance) <==> satisfied(old(self).ops@, instance)
                    && left.value@ == right.value@,
    {
        proof {
            let added = Op::Equal { left, right };
            assert forall|instance: Seq<nat>| #[trigger]
                satisfied(old(self).ops@.push(added), instance) <==> satisfied(
                    old(self).ops@,
                    instance,
                ) && left.value@ == right.value@ by {
                lemma_satisfied_push(old(self).ops@, added, instance);
            }
        }
        self.ops.push(Op::Equal { left, right });
    }

    /// Constrains `cell` to the public input at `row` of the instance column `column`.
    pub fn constrain_instance(&mut self, cell: AssignedCell, column: Column, row: usize)
        ensures
            old(self).wf() ==> final(self).wf(),
            final(self).regions == old(self).regions,
            final(self).ops@ == old(self).ops@.push(Op::Instance { cell, column, row }),
            forall|instance: Seq<nat>| #[trigger]
                satisfied(final(self).ops@, instance) <==> satisfied(old(self).ops@, instance)
                    && row < instance.len() && cell.value@ == instance[row as int],
    {
        proof {
            let added = Op::Instance { cell, column, row };
            assert forall|instance: Seq<nat>| #[trigger]
                satisfied(old(self).ops@.push(added), instance) <==> satisfied(
                    old(self).ops@,
                    instance,
                ) && row < instance.len() && cell.value@ == instance[row as int] by {
                lemma_satisfied_push(old(self).ops@, added, instance);
            }
        }
        self.ops.push(Op::Instance { cell, column, row });
    }

    /// Records a constraint or another step that assigns no cell.
    pub fn push(&mut self, op: Op)
        requires
            !(op is Assign),
            !(op is Region),
        ensures
            old(self).wf() ==> final(self).wf(),
            final(self).regions == old(self).regions,
            final(self).ops@ == old(self).ops@.push(op),
            forall|instance: Seq<nat>| #[trigger]
                satisfied(final(self).ops@, instance) <==> satisfied(old(self).ops@, instance)
                    && op_holds(op, instance),
    {
        proof {
            assert forall|instance: Seq<nat>| #[trigger]
                satisfied(old(self).ops@.push(op), instance) <==> satisfied(
                    old(self).ops@,
                    instance,
                ) && op_holds(op, instance) by {
                lemma_satisfied_push(old(self).ops@, op, instance);
            }
        }
        self.ops.push(op);
    }

    /// Where the steps of the region that opens at `start`, or of the steps
    /// before any region, end: at the next step that opens a region, or at the
    /// end of the layout.
    pub fn region_end(&self, start: usize) -> (end: usize)
        requires
            start < self.ops@.len(),
        ensures
            start < end <= self.ops@.len(),
            forall|i: int| start < i < end ==> !(#[trigger] self.ops@[i] is Region),
            end < self.ops@.len() ==> self.ops@[end as int] is Region,
    {
        let len = self.ops.len();
        let mut end = start + 1;
        while end < len
            invariant
                len == self.ops@.len(),
                start < end <= len,
                forall|i: int| start < i < end ==> !(#[trigger] self.ops@[i] is Region),
            decreases len - end,
        {
            match self.ops[end] {
                Op::Region { .. } => {
                    return end;
                },
                _ => {},
            }
            end = end + 1;
        }
        end
    }

    /// Whether every constraint of the layout holds, given the public inputs.
    pub fn is_satisfied(&self, instance: &Vec<Fe>) -> (b: bool)
        ensures
            b == satisfied(self.ops@, instance_values(instance@)),
    {
        let ghost inst = instance_values(instance@);
        let mut i: usize = 0;
        while i < self.ops.len()
            invariant
                i <= self.ops.len(),
                inst == instance_values(instance@),
                forall|j: int| 0 <= j < i ==> op_holds(#[trigger] self.ops@[j], inst),
            decreases self.ops.len() - i,
        {
            let holds = match self.ops[i] {
                Op::Equal { left, right } => {
                    proof {
                        if left.value@ == right.value@ {
                            crate::field::lemma_fe_injective(left.value, right.value);
                        }
                    }
                    left.value == right.value
                },
                Op::Hash2 { left, right, output } => {
                    let h = commit2(&left.value, &right.value);
                    proof {
                        if h@ == output.value@ {
                            crate::field::lemma_fe_injective(h, output.value);
                        }
                    }
                    h == output.value
                },
                Op::Hash3 { first, second, third, output } => {
                    let h = commit3(&first.value, &second.value, &third.value);
                    proof {
                        if h@ == output.value@ {
                            crate::field::lemma_fe_injective(h, output.value);
                        }
                    }
                    h == output.value
                },
                Op::Range { value, min, max } => range_holds(&value.value, &min.value, &max.value),
                Op::Instance { cell, column, row } => {
                    if row < instance.len() {
                        let expected = instance[row];
                        proof {
                            assert(inst[row as int] == instance@[row as int]@);
                            if cell.value@ == expected@ {
                                crate::field::lemma_fe_injective(cell.value, expected);
                            }
                        }
                        cell.value == expected
                    } else {
                        false
                    }
                },
                Op::Integer { integer } => {
                    let limbs = Limbs::decompose(&integer.value);
                    proof {
                        if integer.wf() {
                            crate::gadgets::signature::lemma_limbs_unique(limbs, integer.limbs);
                        }
                    }
                    limbs == integer.limbs
                },
                Op::PublicKey { key } => {
                    match (Base::from_u256(key.x.value), Base::from_u256(key.y.value)) {
                        (Some(x), Some(y)) => (Point { x, y }).is_on_curve(),
                        _ => false,
                    }
                },
                Op::Ecdsa { signature, public_key, message } => {
                    match (
                        Scalar::from_u256(signature.r.value),
                        Scalar::from_u256(signature.s.value),
                        Scalar::from_u256(message.value),
                        Base::from_u256(public_key.x.value),
                        Base::from_u256(public_key.y.value),
                    ) {
                        (Some(r), Some(s), Some(z), Some(x), Some(y)) => ecdsa_verify(
                            &r,
                            &s,
                            &Point { x, y },
                            &z,
                        ),
                        _ => false,
                    }
                },
                _ => true,
            };
            assert(holds == op_holds(self.ops@[i as int], inst));
            if !holds {
                return false;
            }
            i = i + 1;
        }
        true
    }
}

} // verus!
