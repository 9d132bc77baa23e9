//! The group access circuit: the walk from a member's leaf up a path of
//! siblings to the group's published root, each node the hash commitment of
//! its two children in their order.

use crate::cs::{
    columns_grown, fresh, same_shape, Column, ColumnKind, ConstraintSystem, Selector,
};
use crate::error::{Error, Gadget};
use crate::field::{fe, lemma_fe_of_view, Fe};
use crate::gadgets::merkle::{fe_values, merkle_ops, merkle_root, node_cell, MerkleGadget};
use crate::gadgets::poseidon::{
    poseidon_columns, poseidon_configured, PoseidonChip, PoseidonConfig,
};
use crate::layouter::{
    in_opened, is_assign, satisfied, AssignedCell, Cell, Layouter, Op, RegionName,
};
use vstd::prelude::*;

verus! {

/// The depth that the circuit's shape is laid out for.
pub const DEPTH: usize = 20;

/// The columns of the circuit: one for the leaf, for each level one for the
/// sibling and one for the side, and those of the hash gadget.
#[derive(Clone, Debug, PartialEq, Eq)]
pub struct GroupAccessConfig {
    pub leaf: Column,
    pub path_elements: Vec<Column>,
    pub path_indices: Vec<Column>,
    /// The instance column whose first row holds the published root.
    pub root: Column,
    pub selector: Selector,
    pub poseidon: PoseidonConfig,
}

/// The witness of one membership.
#[derive(Clone, Debug, PartialEq, Eq)]
pub struct GroupAccessCircuit {
    pub leaf: Fe,
    pub path_elements: Vec<Fe>,
    /// The side of each level: set where the accumulated node is the right child.
    pub path_indices: Vec<bool>,
    /// The published root of the group: the circuit's one public input.
    pub root: Fe,
}

/// The integer that stands for a side: one where it is set, else zero.
pub open spec fn side_value(side: bool) -> nat {
    if side {
        1
    } else {
        0
    }
}

impl GroupAccessConfig {
    /// The number of levels that the configuration has columns for.
    pub open spec fn depth(&self) -> nat {
        if self.path_elements@.len() <= self.path_indices@.len() {
            self.path_elements@.len()
        } else {
            self.path_indices@.len()
        }
    }

    /// On no level do sibling and side share a column, and on the first level
    /// neither shares the leaf's.
    pub open spec fn wf(&self) -> bool {
        &&& forall|i: int|
            0 <= i < self.depth() ==> (#[trigger] self.path_elements@[i]).index
                != self.path_indices@[i].index
        &&& self.depth() > 0 ==> self.path_elements@[0].index != self.leaf.index
            && self.path_indices@[0].index != self.leaf.index
    }

    /// Decides whether the configuration is well formed.
    pub fn is_wf(&self) -> (b: bool)
        ensures
            b == self.wf(),
    {
        let depth = if self.path_elements.len() <= self.path_indices.len() {
            self.path_elements.len()
        } else {
            self.path_indices.len()
        };
        if depth > 0 && (self.path_elements[0].index == self.leaf.index
            || self.path_indices[0].index == self.leaf.index) {
            return false;
        }
        let mut i: usize = 0;
        while i < depth
            invariant
                i <= depth,
                depth == self.depth(),
                forall|j: int|
                    0 <= j < i ==> (#[trigger] self.path_elements@[j]).index
                        != self.path_indices@[j].index,
            decreases depth - i,
        {
            if self.path_elements[i].index == self.path_indices[i].index {
                return false;
            }
            i = i + 1;
        }
        true
    }
}

/// The equality columns that configuring the circuit opens: the leaf's, each
/// sibling's, and the instance column of the root.
pub open spec fn group_equality(config: GroupAccessConfig) -> Seq<Column> {
    seq![config.leaf] + config.path_elements@ + seq![config.root]
}

/// What configuring the circuit makes of a circuit's shape: the column of the
/// leaf, then for each of `DEPTH` levels the column of the sibling and the
/// column of the side, then the instance column of the root and one selector,
/// and last the hash gadget on columns of its own. Equality is open on every
/// column whose cells are hashed or bound: the leaf's, the siblings', the
/// root's, and the hash gadget's first state column, which holds the nodes.
pub open spec fn group_configured(
    before: ConstraintSystem,
    after: ConstraintSystem,
    config: GroupAccessConfig,
) -> bool {
    &&& config.leaf == (Column { kind: ColumnKind::Advice, index: before.num_advice() })
    &&& config.path_elements@ =~= Seq::new(
        DEPTH as nat,
        |i: int|
            Column { kind: ColumnKind::Advice, index: (before.num_advice() + 1 + 2 * i) as usize },
    )
    &&& config.path_indices@ =~= Seq::new(
        DEPTH as nat,
        |i: int|
            Column { kind: ColumnKind::Advice, index: (before.num_advice() + 2 + 2 * i) as usize },
    )
    &&& config.root == (Column { kind: ColumnKind::Instance, index: before.num_instance() })
    &&& config.selector == (Selector { index: before.num_selectors() })
    &&& config.poseidon == poseidon_columns(
        (before.num_advice() + 1 + 2 * DEPTH) as usize,
        before.num_fixed(),
    )
    &&& columns_grown(before, after, 45, 6, 1, 1)
    &&& after.equality@ =~= before.equality@ + group_equality(config) + seq![
        config.poseidon.state[0],
    ]
    &&& after.constants@ =~= before.constants@.push(config.poseidon.rc_b[0])
    &&& after.gates@ =~= before.gates@
    &&& after.chips@ =~= before.chips@.push(
        crate::cs::ChipConfig::Poseidon { config: config.poseidon },
    )
}

/// Configuring the circuit on the same shape twice gives the same columns and
/// the same shape.
pub proof fn lemma_configure_deterministic(
    before: ConstraintSystem,
    first: ConstraintSystem,
    first_config: GroupAccessConfig,
    second: ConstraintSystem,
    second_config: GroupAccessConfig,
)
    requires
        group_configured(before, first, first_config),
        group_configured(before, second, second_config),
    ensures
        first_config.leaf == second_config.leaf,
        first_config.path_elements@ == second_config.path_elements@,
        first_config.path_indices@ == second_config.path_indices@,
        first_config.root == second_config.root,
        first_config.selector == second_config.selector,
        first_config.poseidon == second_config.poseidon,
        same_shape(first, second),
{
    assert forall|i: int| 0 <= i < first.gates@.len() implies crate::cs::same_gate(
        #[trigger] first.gates@[i],
        second.gates@[i],
    ) by {
        assert(first.gates@[i] == before.gates@[i]);
        assert(second.gates@[i] == before.gates@[i]);
    }
}

/// The cell of the leaf: the first row of the leaf's column.
pub open spec fn leaf_cell(c: GroupAccessCircuit, config: GroupAccessConfig, region: usize)
    -> AssignedCell {
    AssignedCell { cell: Cell { region, column: config.leaf.index, offset: 0 }, value: c.leaf }
}

/// The cell of the sibling of `level`: row `level` of that level's column.
pub open spec fn sibling_cell(
    c: GroupAccessCircuit,
    config: GroupAccessConfig,
    region: usize,
    level: int,
) -> AssignedCell {
    AssignedCell {
        cell: Cell { region, column: config.path_elements@[level].index, offset: level as usize },
        value: c.path_elements@[level],
    }
}

/// The cell of the side of `level`: row `level` of that level's column.
pub open spec fn side_cell(
    c: GroupAccessCircuit,
    config: GroupAccessConfig,
    region: usize,
    level: int,
) -> AssignedCell {
    AssignedCell {
        cell: Cell { region, column: config.path_indices@[level].index, offset: level as usize },
        value: fe(side_value(c.path_indices@[level])),
    }
}

/// The cells of all siblings.
pub open spec fn sibling_cells(c: GroupAccessCircuit, config: GroupAccessConfig, region: usize)
    -> Seq<AssignedCell> {
    Seq::new(c.path_elements@.len(), |level: int| sibling_cell(c, config, region, level))
}

/// The assignments of the walk's witnesses: level by level the sibling, then
/// the side.
pub open spec fn walk_ops(c: GroupAccessCircuit, config: GroupAccessConfig, region: usize) -> Seq<
    Op,
> {
    Seq::new(
        2 * c.path_elements@.len(),
        |k: int|
            if k % 2 == 0 {
                Op::Assign { cell: sibling_cell(c, config, region, k / 2) }
            } else {
                Op::Assign { cell: side_cell(c, config, region, k / 2) }
            },
    )
}

/// The cell that holds the candidate root.
pub open spec fn root_cell(c: GroupAccessCircuit, config: GroupAccessConfig, region: usize)
    -> AssignedCell {
    node_cell(
        PoseidonChip { config: config.poseidon },
        (region + 1) as usize,
        leaf_cell(c, config, region),
        sibling_cells(c, config, region),
        c.path_indices@,
        c.path_elements@.len(),
    )
}

/// Everything that synthesis of a membership adds to a layout whose next
/// region is `region`: the membership's own region with leaf, siblings and
/// sides; the walk up the path, one hash region per level; and the binding of
/// the candidate root to the first public input.
pub open spec fn group_ops(c: GroupAccessCircuit, config: GroupAccessConfig, region: usize) -> Seq<
    Op,
> {
    seq![
        Op::Region { name: RegionName::Membership },
        Op::Assign { cell: leaf_cell(c, config, region) },
    ] + walk_ops(c, config, region) + merkle_ops(
        PoseidonChip { config: config.poseidon },
        (region + 1) as usize,
        leaf_cell(c, config, region),
        sibling_cells(c, config, region),
        c.path_indices@,
        c.path_elements@.len(),
    ) + seq![Op::Instance { cell: root_cell(c, config, region), column: config.root, row: 0 }]
}

impl GroupAccessCircuit {
    /// Whether the path has as many siblings as sides, and no more levels than
    /// the configuration has columns for.
    pub open spec fn fits(&self, config: GroupAccessConfig) -> bool {
        self.path_elements@.len() == self.path_indices@.len() && self.path_elements@.len()
            <= config.depth()
    }

    /// The root that the leaf and its path lead to.
    pub open spec fn computed_root(&self) -> nat {
        merkle_root(self.leaf@, fe_values(self.path_elements@), self.path_indices@)
    }

    /// The relation that the circuit attests, given the public inputs: the walk
    /// from the leaf ends at the published root.
    pub open spec fn holds(&self, instance: Seq<nat>) -> bool {
        instance.len() > 0 && self.computed_root() == instance[0]
    }

    /// The circuit without a witness, of the same shape: as many siblings and
    /// sides, every field element zero and every side unset.
    pub fn without_witnesses(&self) -> (blank: GroupAccessCircuit)
        ensures
            blank.leaf@ == 0,
            blank.root@ == 0,
            blank.path_elements@.len() == self.path_elements@.len(),
            blank.path_indices@.len() == self.path_indices@.len(),
            forall|i: int|
                0 <= i < blank.path_elements@.len() ==> (#[trigger] blank.path_elements@[i])@ == 0,
            forall|i: int| 0 <= i < blank.path_indices@.len() ==> !blank.path_indices@[i],
    {
        let mut path_indices: Vec<bool> = Vec::new();
        let mut i: usize = 0;
        while i < self.path_indices.len()
            invariant
                i <= self.path_indices@.len(),
                path_indices@.len() == i,
                forall|j: int| 0 <= j < i ==> !path_indices@[j],
            decreases self.path_indices.len() - i,
        {
            path_indices.push(false);
            i = i + 1;
        }
        GroupAccessCircuit {
            leaf: Fe::zero(),
            path_elements: crate::field::zeros(self.path_elements.len()),
            path_indices,
            root: Fe::zero(),
        }
    }

    /// The public inputs of the membership: the published root alone.
    pub fn public_inputs(&self) -> (instance: Vec<Fe>)
        ensures
            instance@ == seq![self.root],
    {
        let mut instance: Vec<Fe> = Vec::new();
        instance.push(self.root);
        instance
    }

    /// Declares the circuit's columns for a path of `DEPTH` levels.
    pub fn configure(meta: &mut ConstraintSystem) -> (config: GroupAccessConfig)
        ensures
            group_configured(*old(meta), *final(meta), config),
            config.wf(),
            config.depth() == DEPTH,
    {
        let ghost start = meta.advice@.len();
        let leaf = meta.advice_column();
        meta.enable_equality(leaf);
        let mut path_elements: Vec<Column> = Vec::new();
        let mut path_indices: Vec<Column> = Vec::new();
        let mut level: usize = 0;
        while level < DEPTH
            invariant
                level <= DEPTH,
                start == old(meta).advice@.len(),
                meta.advice@ =~= old(meta).advice@ + fresh(
                    ColumnKind::Advice,
                    start,
                    (1 + 2 * level) as nat,
                ),
                meta.fixed@ == old(meta).fixed@,
                meta.instance@ == old(meta).instance@,
                meta.selectors@ == old(meta).selectors@,
                meta.equality@ == old(meta).equality@ + seq![leaf] + path_elements@,
                meta.constants@ == old(meta).constants@,
                meta.gates@ == old(meta).gates@,
                meta.chips@ == old(meta).chips@,
                path_elements@ =~= Seq::new(
                    level as nat,
                    |i: int|
                        Column { kind: ColumnKind::Advice, index: (start + 1 + 2 * i) as usize },
                ),
                path_indices@ =~= Seq::new(
                    level as nat,
                    |i: int|
                        Column { kind: ColumnKind::Advice, index: (start + 2 + 2 * i) as usize },
                ),
            decreases DEPTH - level,
        {
            let sibling = meta.advice_column();
            meta.enable_equality(sibling);
            path_elements.push(sibling);
            path_indices.push(meta.advice_column());
            level = level + 1;
        }
        let root = meta.instance_column();
        meta.enable_equality(root);
        let selector = meta.selector();
        let poseidon = PoseidonChip::configure(meta);
        let config = GroupAccessConfig {
            leaf,
            path_elements,
            path_indices,
            root,
            selector,
            poseidon,
        };
        proof {
            crate::cs::lemma_counts_fit(meta);
            assert(meta.equality@ =~= old(meta).equality@ + group_equality(config) + seq![
                poseidon.state[0],
            ]);
        }
        config
    }

    /// Lays out the membership: leaf, siblings and sides in a region of their
    /// own, then the walk from the leaf up the path, and the binding of the
    /// candidate root to the first public input. A path whose siblings and
    /// sides differ in number, or with more levels than the configuration has
    /// columns for, is refused before anything is laid out.
    pub fn synthesize(&self, config: &GroupAccessConfig, layouter: &mut Layouter) -> (r: Result<
        (),
        Error,
    >)
        requires
            old(layouter).wf(),
            config.wf(),
        ensures
            final(layouter).wf(),
            r is Ok <==> self.fits(*config),
            r matches Err(e) ==> {
                &&& e == (Error::Arity { gadget: Gadget::Merkle })
                &&& final(layouter).ops@ == old(layouter).ops@
                &&& final(layouter).regions == old(layouter).regions
            },
            r is Ok ==> {
                &&& final(layouter).regions == old(layouter).regions + self.path_elements@.len() + 1
                &&& final(layouter).ops@ == old(layouter).ops@ + group_ops(
                    *self,
                    *config,
                    old(layouter).regions,
                )
                &&& forall|instance: Seq<nat>| #[trigger]
                    satisfied(final(layouter).ops@, instance) <==> satisfied(
                        old(layouter).ops@,
                        instance,
                    ) && self.holds(instance)
            },
    {
        let levels = self.path_elements.len();
        if levels != self.path_indices.len() || levels > config.path_elements.len() || levels
            > config.path_indices.len() {
            return Err(Error::Arity { gadget: Gadget::Merkle });
        }
        let ghost before = layouter.ops@;
        let ghost first = layouter.regions;
        let region = layouter.assign_region(RegionName::Membership);
        proof {
            assert forall|i: int| 0 <= i < layouter.ops@.len() implies !is_assign(
                #[trigger] layouter.ops@[i],
                Cell { region, column: config.leaf.index, offset: 0 },
            ) by {
                if i < before.len() {
                    assert(in_opened(before[i], region));
                }
            }
        }
        let leaf = match layouter.assign_advice(Gadget::Merkle, region, config.leaf, 0, self.leaf) {
            Ok(cell) => cell,
            Err(e) => return Err(e),
        };
        let ghost head = layouter.ops@;
        let ghost walk = walk_ops(*self, *config, region);
        let ghost every = sibling_cells(*self, *config, region);
        let mut siblings: Vec<AssignedCell> = Vec::new();
        let mut level: usize = 0;
        while level < levels
            invariant
                level <= levels,
                levels == self.path_elements@.len(),
                self.fits(*config),
                config.wf(),
                layouter.wf(),
                region == first,
                first == old(layouter).regions,
                region < layouter.regions,
                layouter.regions == first + 1,
                before == old(layouter).ops@,
                old(layouter).wf(),
                head == before.push(Op::Region { name: RegionName::Membership }).push(
                    Op::Assign { cell: leaf },
                ),
                leaf == leaf_cell(*self, *config, region),
                walk == walk_ops(*self, *config, region),
                every == sibling_cells(*self, *config, region),
                forall|instance: Seq<nat>| #[trigger]
                    satisfied(layouter.ops@, instance) <==> satisfied(before, instance),
                layouter.ops@ == head + walk.take(2 * level),
                siblings@ == every.take(level as int),
            decreases levels - level,
        {
            let side = Fe::from_u64(if self.path_indices[level] { 1 } else { 0 });
            proof {
                lemma_fe_of_view(side);
                let sibling = Cell {
                    region,
                    column: config.path_elements@[level as int].index,
                    offset: level,
                };
                assert forall|i: int| 0 <= i < layouter.ops@.len() implies !is_assign(
                    #[trigger] layouter.ops@[i],
                    sibling,
                ) by {
                    if i < before.len() {
                        assert(in_opened(before[i], region));
                    } else if i >= head.len() {
                        assert(layouter.ops@[i] == walk[i - head.len()]);
                    }
                }
            }
            let sibling = match layouter.assign_advice(
                Gadget::Merkle,
                region,
                config.path_elements[level],
                level,
                self.path_elements[level],
            ) {
                Ok(cell) => cell,
                Err(e) => return Err(e),
            };
            proof {
                let place = Cell {
                    region,
                    column: config.path_indices@[level as int].index,
                    offset: level,
                };
                assert forall|i: int| 0 <= i < layouter.ops@.len() implies !is_assign(
                    #[trigger] layouter.ops@[i],
                    place,
                ) by {
                    if i < before.len() {
                        assert(in_opened(before[i], region));
                    } else if i >= head.len() && i < head.len() + 2 * level {
                        assert(layouter.ops@[i] == walk[i - head.len()]);
                    }
                }
            }
            match layouter.assign_advice(
                Gadget::Merkle,
                region,
                config.path_indices[level],
                level,
                side,
            ) {
                Ok(_) => {},
                Err(e) => return Err(e),
            }
            siblings.push(sibling);
            proof {
                assert(walk.take(2 * (level + 1)) =~= walk.take(2 * level).push(
                    walk[2 * level],
                ).push(walk[2 * level + 1]));
                assert(every.take(level + 1) =~= every.take(level as int).push(
                    every[level as int],
                ));
            }
            level = level + 1;
        }
        proof {
            assert(walk.take(2 * levels) =~= walk);
            assert(every.take(levels as int) =~= every);
        }
        let ghost after_walk = layouter.ops@;
        let chip = PoseidonChip::construct(config.poseidon);
        let root = match MerkleGadget::compute_root(
            &chip,
            layouter,
            leaf,
            siblings.as_slice(),
            self.path_indices.as_slice(),
        ) {
            Ok(cell) => cell,
            Err(e) => return Err(e),
        };
        proof {
            assert(crate::gadgets::merkle::path_values(siblings@) =~= fe_values(
                self.path_elements@,
            ));
            assert(root == root_cell(*self, *config, first));
        }
        layouter.constrain_instance(root, config.root, 0);
        proof {
            assert(layouter.ops@ =~= before + group_ops(*self, *config, first));
        }
        Ok(())
    }

    /// Configures a circuit of the membership's shape, synthesizes the
    /// membership on it and decides whether the layout is satisfied under the
    /// public inputs `instance`: whether a proof of this membership would be
    /// accepted.
    pub fn accepts(&self, instance: &Vec<Fe>) -> (r: Result<bool, Error>)
        ensures
            r is Ok <==> self.path_elements@.len() == self.path_indices@.len()
                && self.path_elements@.len() <= DEPTH,
            r matches Err(e) ==> e == (Error::Arity { gadget: Gadget::Merkle }),
            r matches Ok(accepted) ==> accepted == self.holds(
                crate::layouter::instance_values(instance@),
            ),
    {
        let mut meta = ConstraintSystem::new();
        let config = GroupAccessCircuit::configure(&mut meta);
        let mut layouter = Layouter::new();
        match self.synthesize(&config, &mut layouter) {
            Ok(_) => {
                proof {
                    assert(satisfied(
                        Seq::<Op>::empty(),
                        crate::layouter::instance_values(instance@),
                    ));
                }
                Ok(layouter.is_satisfied(instance))
            },
            Err(e) => Err(e),
        }
    }
}

} // verus!
