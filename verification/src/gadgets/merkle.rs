//! The Merkle inclusion gadget: re-applies the hash commitment up a path of
//! siblings, from a leaf to the candidate root.

use crate::error::{Error, Gadget};
use crate::field::Fe;
use crate::gadgets::poseidon::{commit2, hash_output, poseidon, PoseidonChip, PoseidonGadget};
use crate::layouter::{satisfied, AssignedCell, Layouter, Op, RegionName};
use vstd::arithmetic::div_mod::lemma_div_denominator;
use vstd::arithmetic::power2::{lemma_pow2_pos, lemma_pow2_unfold, pow2};
use vstd::prelude::*;

verus! {

/// The two operands of a node's hash: the sibling comes first where `side` is
/// set, that is where the accumulated node is the right child.
pub open spec fn order<T>(acc: T, sibling: T, side: bool) -> (T, T) {
    if side {
        (sibling, acc)
    } else {
        (acc, sibling)
    }
}

/// The node above an accumulated node and its sibling.
pub open spec fn parent(acc: nat, sibling: nat, side: bool) -> nat {
    poseidon(seq![order(acc, sibling, side).0, order(acc, sibling, side).1])
}

/// The node reached from `leaf` after the first `levels` levels of a path.
pub open spec fn node_at(leaf: nat, path: Seq<nat>, sides: Seq<bool>, levels: nat) -> nat
    decreases levels,
{
    if levels == 0 {
        leaf
    } else {
        parent(
            node_at(leaf, path, sides, (levels - 1) as nat),
            path[levels - 1],
            sides[levels - 1],
        )
    }
}

/// The root that a leaf and its path of siblings lead to.
pub open spec fn merkle_root(leaf: nat, path: Seq<nat>, sides: Seq<bool>) -> nat {
    node_at(leaf, path, sides, path.len())
}

/// The two operands that are hashed at `level` of a walk.
pub open spec fn operands(leaf: nat, path: Seq<nat>, sides: Seq<bool>, level: int) -> Seq<nat> {
    let below = node_at(leaf, path, sides, level as nat);
    seq![order(below, path[level], sides[level]).0, order(below, path[level], sides[level]).1]
}

/// Whether, from `level` up to `depth`, two walks never hash different
/// operands into the same node.
pub open spec fn no_collision(
    leaf: nat,
    path_a: Seq<nat>,
    sides_a: Seq<bool>,
    path_b: Seq<nat>,
    sides_b: Seq<bool>,
    level: int,
    depth: int,
) -> bool {
    forall|j: int|
        level <= j < depth ==> (#[trigger] operands(leaf, path_a, sides_a, j) != operands(
            leaf,
            path_b,
            sides_b,
            j,
        ) ==> poseidon(operands(leaf, path_a, sides_a, j)) != poseidon(
            operands(leaf, path_b, sides_b, j),
        ))
}

/// Two walks from one leaf that hash different operands at `level`, and take
/// the same sides above it, reach different nodes at every level above, unless
/// the hash collides on the way.
pub proof fn lemma_walks_diverge(
    leaf: nat,
    path_a: Seq<nat>,
    sides_a: Seq<bool>,
    path_b: Seq<nat>,
    sides_b: Seq<bool>,
    level: int,
    above: int,
    depth: int,
)
    requires
        0 <= level < above <= depth,
        operands(leaf, path_a, sides_a, level) != operands(leaf, path_b, sides_b, level),
        forall|j: int| level < j < depth ==> sides_a[j] == sides_b[j],
        no_collision(leaf, path_a, sides_a, path_b, sides_b, level, depth),
    ensures
        node_at(leaf, path_a, sides_a, above as nat) != node_at(leaf, path_b, sides_b, above as nat),
    decreases above - level,
{
    let j = above - 1;
    if j > level {
        lemma_walks_diverge(leaf, path_a, sides_a, path_b, sides_b, level, j, depth);
        let a = operands(leaf, path_a, sides_a, j);
        let b = operands(leaf, path_b, sides_b, j);
        if sides_a[j] {
            assert(a[1] != b[1]);
        } else {
            assert(a[0] != b[0]);
        }
    }
    assert(node_at(leaf, path_a, sides_a, above as nat) == poseidon(
        operands(leaf, path_a, sides_a, j),
    ));
    assert(node_at(leaf, path_b, sides_b, above as nat) == poseidon(
        operands(leaf, path_b, sides_b, j),
    ));
}

/// Two walks that agree below `level` reach the same node at `level`.
pub proof fn lemma_walks_agree(
    leaf: nat,
    path_a: Seq<nat>,
    sides_a: Seq<bool>,
    path_b: Seq<nat>,
    sides_b: Seq<bool>,
    level: nat,
)
    requires
        forall|j: int| 0 <= j < level ==> path_a[j] == path_b[j] && sides_a[j] == sides_b[j],
    ensures
        node_at(leaf, path_a, sides_a, level) == node_at(leaf, path_b, sides_b, level),
    decreases level,
{
    if level > 0 {
        lemma_walks_agree(leaf, path_a, sides_a, path_b, sides_b, (level - 1) as nat);
    }
}

/// Changing one sibling of a path changes the root, unless the hash collides
/// on the way up from the changed level.
pub proof fn lemma_changed_sibling_changes_root(
    leaf: nat,
    path: Seq<nat>,
    sides: Seq<bool>,
    level: int,
    sibling: nat,
)
    requires
        0 <= level < path.len(),
        sibling != path[level],
        no_collision(leaf, path, sides, path.update(level, sibling), sides, level, path.len() as int),
    ensures
        merkle_root(leaf, path, sides) != merkle_root(leaf, path.update(level, sibling), sides),
{
    let changed = path.update(level, sibling);
    lemma_walks_agree(leaf, path, sides, changed, sides, level as nat);
    let a = operands(leaf, path, sides, level);
    let b = operands(leaf, changed, sides, level);
    if sides[level] {
        assert(a[0] != b[0]);
    } else {
        assert(a[1] != b[1]);
    }
    lemma_walks_diverge(leaf, path, sides, changed, sides, level, path.len() as int, path.len() as int);
}

/// Flipping the side of one level changes the root, where the node reached at
/// that level differs from its sibling, unless the hash collides on the way up
/// from the flipped level. Where node and sibling are the same, their order
/// does not show and the root stays.
pub proof fn lemma_flipped_side_changes_root(
    leaf: nat,
    path: Seq<nat>,
    sides: Seq<bool>,
    level: int,
)
    requires
        0 <= level < path.len() <= sides.len(),
        node_at(leaf, path, sides, level as nat) != path[level],
        no_collision(
            leaf,
            path,
            sides,
            path,
            sides.update(level, !sides[level]),
            level,
            path.len() as int,
        ),
    ensures
        merkle_root(leaf, path, sides) != merkle_root(
            leaf,
            path,
            sides.update(level, !sides[level]),
        ),
{
    let flipped = sides.update(level, !sides[level]);
    lemma_walks_agree(leaf, path, sides, path, flipped, level as nat);
    let a = operands(leaf, path, sides, level);
    let b = operands(leaf, path, flipped, level);
    assert(a[0] != b[0]);
    lemma_walks_diverge(leaf, path, sides, path, flipped, level, path.len() as int, path.len() as int);
}

/// The nodes of one level of the tree over `leaves`, from left to right: the
/// leaves themselves at level zero, and above them the hashes of the pairs of
/// the level below.
pub open spec fn tree_level(leaves: Seq<nat>, level: nat) -> Seq<nat>
    decreases level,
{
    if level == 0 {
        leaves
    } else {
        let below = tree_level(leaves, (level - 1) as nat);
        Seq::new(below.len() / 2, |i: int| poseidon(seq![below[2 * i], below[2 * i + 1]]))
    }
}

/// The root of the tree of depth `depth` over `leaves`.
pub open spec fn tree_root(leaves: Seq<nat>, depth: nat) -> nat {
    tree_level(leaves, depth)[0]
}

/// The position, within its level, of the node that lies `level` levels above
/// the leaf at `index`.
pub open spec fn ancestor(index: nat, level: nat) -> nat {
    index / pow2(level)
}

/// The sides of the walk from the leaf at `index` to the root: at each level
/// the lowest bit of the node's position.
pub open spec fn tree_sides(index: nat, depth: nat) -> Seq<bool> {
    Seq::new(depth, |level: int| ancestor(index, level as nat) % 2 == 1)
}

/// The siblings of the walk from the leaf at `index` to the root: at each level
/// the other node of the pair that the walk's node belongs to.
pub open spec fn tree_path(leaves: Seq<nat>, index: nat, depth: nat) -> Seq<nat> {
    Seq::new(
        depth,
        |level: int|
            {
                let position = ancestor(index, level as nat) as int;
                let nodes = tree_level(leaves, level as nat);
                if position % 2 == 1 {
                    nodes[position - 1]
                } else {
                    nodes[position + 1]
                }
            },
    )
}

/// Each level of a tree over two to the power `depth` leaves has half the
/// nodes of the level below.
pub proof fn lemma_tree_level_len(leaves: Seq<nat>, depth: nat, level: nat)
    requires
        leaves.len() == pow2(depth),
        level <= depth,
    ensures
        tree_level(leaves, level).len() == pow2((depth - level) as nat),
    decreases level,
{
    if level > 0 {
        lemma_tree_level_len(leaves, depth, (level - 1) as nat);
        lemma_pow2_unfold((depth - level + 1) as nat);
    }
}

/// The node that lies one level further up has half the position.
pub proof fn lemma_ancestor_step(index: nat, level: nat)
    ensures
        ancestor(index, level + 1) == ancestor(index, level) / 2,
{
    lemma_pow2_pos(level);
    lemma_pow2_unfold(level + 1);
    lemma_div_denominator(index as int, pow2(level) as int, 2);
    assert(pow2(level) * 2 == pow2(level + 1));
}

/// The walk from a leaf of a tree, along the leaf's siblings and sides, passes
/// at every level through the leaf's ancestor of that level.
pub proof fn lemma_walk_follows_tree(leaves: Seq<nat>, index: nat, depth: nat, level: nat)
    requires
        leaves.len() == pow2(depth),
        index < leaves.len(),
        level <= depth,
    ensures
        ancestor(index, level) < tree_level(leaves, level).len(),
        node_at(
            leaves[index as int],
            tree_path(leaves, index, depth),
            tree_sides(index, depth),
            level,
        ) == tree_level(leaves, level)[ancestor(index, level) as int],
    decreases level,
{
    if level == 0 {
        assert(pow2(0) == 1) by {
            vstd::arithmetic::power2::lemma2_to64();
        }
    } else {
        let below = (level - 1) as nat;
        lemma_walk_follows_tree(leaves, index, depth, below);
        lemma_tree_level_len(leaves, depth, below);
        lemma_tree_level_len(leaves, depth, level);
        lemma_pow2_unfold((depth - below) as nat);
        lemma_ancestor_step(index, below);
        let position = ancestor(index, below) as int;
        let nodes = tree_level(leaves, below);
        let pair = position / 2;
        assert(nodes.len() == 2 * tree_level(leaves, level).len());
        assert(tree_level(leaves, level)[pair as int] == poseidon(
            seq![nodes[2 * pair], nodes[2 * pair + 1]],
        ));
        let path = tree_path(leaves, index, depth);
        let sides = tree_sides(index, depth);
        assert(sides[below as int] == (position % 2 == 1));
        if position % 2 == 1 {
            assert(path[below as int] == nodes[position - 1]);
            assert(position == 2 * pair + 1);
        } else {
            assert(path[below as int] == nodes[position + 1]);
            assert(position == 2 * pair);
        }
    }
}

/// From every leaf of a tree, the walk along the leaf's siblings and sides
/// reaches the tree's root.
pub proof fn lemma_walk_reaches_root(leaves: Seq<nat>, index: nat, depth: nat)
    requires
        leaves.len() == pow2(depth),
        index < leaves.len(),
    ensures
        merkle_root(leaves[index as int], tree_path(leaves, index, depth), tree_sides(index, depth))
            == tree_root(leaves, depth),
{
    lemma_walk_follows_tree(leaves, index, depth, depth);
    lemma_tree_level_len(leaves, depth, depth);
    assert(pow2(0) == 1) by {
        vstd::arithmetic::power2::lemma2_to64();
    }
}

/// The integers of a sequence of field elements.
pub open spec fn fe_values(elements: Seq<Fe>) -> Seq<nat> {
    elements.map_values(|e: Fe| e@)
}

/// The integers that a sequence of cells holds.
pub open spec fn path_values(cells: Seq<AssignedCell>) -> Seq<nat> {
    cells.map_values(|c: AssignedCell| c.value@)
}

/// The cell that holds the accumulated node after `levels` levels, where the
/// hash of the first level has the region `first_region`.
pub open spec fn node_cell(
    chip: PoseidonChip,
    first_region: usize,
    leaf: AssignedCell,
    path: Seq<AssignedCell>,
    sides: Seq<bool>,
    levels: nat,
) -> AssignedCell
    decreases levels,
{
    if levels == 0 {
        leaf
    } else {
        let below = node_cell(chip, first_region, leaf, path, sides, (levels - 1) as nat);
        let pair = order(below, path[levels - 1], sides[levels - 1]);
        hash_output(
            chip,
            (first_region + levels - 1) as usize,
            seq![pair.0.value@, pair.1.value@],
        )
    }
}

/// The steps that the first `levels` levels of a path add to a layout: for each
/// level its region and the constraint on its node.
pub open spec fn merkle_ops(
    chip: PoseidonChip,
    first_region: usize,
    leaf: AssignedCell,
    path: Seq<AssignedCell>,
    sides: Seq<bool>,
    levels: nat,
) -> Seq<Op> {
    Seq::new(
        2 * levels,
        |k: int|
            {
                let below = node_cell(chip, first_region, leaf, path, sides, (k / 2) as nat);
                let pair = order(below, path[k / 2], sides[k / 2]);
                if k % 2 == 0 {
                    Op::Region { name: RegionName::MerkleHash { level: (k / 2) as usize } }
                } else {
                    Op::Hash2 {
                        left: pair.0,
                        right: pair.1,
                        output: node_cell(chip, first_region, leaf, path, sides, (k / 2 + 1) as nat),
                    }
                }
            },
    )
}

/// Orders an accumulated node and its sibling into the operands of their hash.
pub fn order_pair<T>(acc: T, sibling: T, side: bool) -> (r: (T, T))
    ensures
        r == order(acc, sibling, side),
{
    if side {
        (sibling, acc)
    } else {
        (acc, sibling)
    }
}

/// The Merkle inclusion gadget.
pub struct MerkleGadget;

impl MerkleGadget {
    /// Lays out the walk from the cell `hash` up the siblings `path`, one hash
    /// region per level, and returns the cell of the candidate root. `indices`
    /// gives each level's side; indices beyond the path are ignored, and a path
    /// with more siblings than indices is refused.
    pub fn compute_root(
        chip: &PoseidonChip,
        layouter: &mut Layouter,
        hash: AssignedCell,
        path: &[AssignedCell],
        indices: &[bool],
    ) -> (r: Result<AssignedCell, Error>)
        requires
            old(layouter).wf(),
        ensures
            final(layouter).wf(),
            forall|instance: Seq<nat>| #[trigger]
                satisfied(final(layouter).ops@, instance) <==> satisfied(
                    old(layouter).ops@,
                    instance,
                ),
            r is Ok <==> path@.len() <= indices@.len(),
            r matches Err(e) ==> {
                &&& e == (Error::Arity { gadget: Gadget::Merkle })
                &&& final(layouter).ops@ == old(layouter).ops@
                &&& final(layouter).regions == old(layouter).regions
            },
            r matches Ok(root) ==> {
                &&& root == node_cell(
                    *chip,
                    old(layouter).regions,
                    hash,
                    path@,
                    indices@,
                    path@.len(),
                )
                &&& root.value@ == merkle_root(hash.value@, path_values(path@), indices@)
                &&& final(layouter).regions == old(layouter).regions + path@.len()
                &&& final(layouter).ops@ == old(layouter).ops@ + merkle_ops(
                    *chip,
                    old(layouter).regions,
                    hash,
                    path@,
                    indices@,
                    path@.len(),
                )
            },
    {
        if indices.len() < path.len() {
            return Err(Error::Arity { gadget: Gadget::Merkle });
        }
        let ghost first = layouter.regions;
        let ghost before = layouter.ops@;
        let mut acc = hash;
        let mut i: usize = 0;
        assert(layouter.ops@ =~= before + merkle_ops(*chip, first, hash, path@, indices@, 0));
        while i < path.len()
            invariant
                i <= path@.len() <= indices@.len(),
                layouter.regions == first + i,
                layouter.wf(),
                forall|instance: Seq<nat>| #[trigger]
                    satisfied(layouter.ops@, instance) <==> satisfied(before, instance),
                before == old(layouter).ops@,
                acc == node_cell(*chip, first, hash, path@, indices@, i as nat),
                acc.value@ == node_at(hash.value@, path_values(path@), indices@, i as nat),
                layouter.ops@ == before + merkle_ops(*chip, first, hash, path@, indices@, i as nat),
            decreases path.len() - i,
        {
            let ghost prev_ops = layouter.ops@;
            let pair = order_pair(acc, path[i], indices[i]);
            let next = match PoseidonGadget::hash::<2>(
                chip,
                layouter,
                RegionName::MerkleHash { level: i },
                [pair.0, pair.1],
            ) {
                Ok(cell) => cell,
                Err(e) => return Err(e),
            };
            proof {
                let inputs = seq![pair.0, pair.1];
                assert(crate::gadgets::poseidon::cell_values(inputs) =~= seq![
                    pair.0.value@,
                    pair.1.value@,
                ]);
                assert(path_values(path@)[i as int] == path@[i as int].value@);
                let grown = merkle_ops(*chip, first, hash, path@, indices@, (i + 1) as nat);
                let kept = merkle_ops(*chip, first, hash, path@, indices@, i as nat);
                assert(grown =~= kept + crate::gadgets::poseidon::hash_ops(
                    RegionName::MerkleHash { level: i },
                    inputs,
                    next,
                ));
                assert(layouter.ops@ =~= before + grown);
            }
            acc = next;
            i = i + 1;
        }
        Ok(acc)
    }

    /// The root that a leaf and its path lead to, computed outside any layout.
    /// `None` where the path has more siblings than `indices` has sides.
    pub fn recompute_root(leaf: &Fe, path: &[Fe], indices: &[bool]) -> (r: Option<Fe>)
        ensures
            r is Some <==> path@.len() <= indices@.len(),
            r matches Some(root) ==> root@ == merkle_root(leaf@, fe_values(path@), indices@),
    {
        if indices.len() < path.len() {
            return None;
        }
        let mut acc = *leaf;
        let mut i: usize = 0;
        while i < path.len()
            invariant
                i <= path@.len() <= indices@.len(),
                acc@ == node_at(leaf@, fe_values(path@), indices@, i as nat),
            decreases path.len() - i,
        {
            let pair = order_pair(acc, path[i], indices[i]);
            proof {
                assert(fe_values(path@)[i as int] == path@[i as int]@);
            }
            acc = commit2(&pair.0, &pair.1);
            i = i + 1;
        }
        Some(acc)
    }
}

} // verus!
