//! The fixed shape of a circuit: its columns, selectors and gates.

use crate::gadgets::poseidon::PoseidonConfig;
use vstd::prelude::*;

verus! {

/// What a column holds.
#[derive(Clone, Copy, Debug, PartialEq, Eq, Structural)]
pub enum ColumnKind {
    /// Witness values.
    Advice,
    /// Values fixed with the circuit.
    Fixed,
    /// Public inputs.
    Instance,
}

/// A column of the circuit, by its kind and its index among the columns of that kind.
#[derive(Clone, Copy, Debug, PartialEq, Eq, Structural)]
pub struct Column {
    pub kind: ColumnKind,
    pub index: usize,
}

/// A selector, by its index.
#[derive(Clone, Copy, Debug, PartialEq, Eq, Structural)]
pub struct Selector {
    pub index: usize,
}

/// A polynomial over the advice cells of a row and of the row after it.
#[derive(Debug, PartialEq, Eq)]
pub enum Expression {
    /// A constant.
    Constant(u64),
    /// The advice cell of a column, `rotation` rows below the current one.
    Advice { column: usize, rotation: usize },
    /// The additive inverse of a polynomial.
    Negated(Box<Expression>),
    /// The sum of two polynomials.
    Sum(Box<Expression>, Box<Expression>),
    /// The product of two polynomials.
    Product(Box<Expression>, Box<Expression>),
}

impl Expression {
    /// The value of the polynomial modulo `p`, where `cells(column, rotation)`
    /// gives the value of each advice cell.
    pub open spec fn eval(self, cells: spec_fn(usize, usize) -> nat, p: nat) -> nat
        decreases self,
    {
        match self {
            Expression::Constant(c) => (c as nat) % p,
            Expression::Advice { column, rotation } => cells(column, rotation) % p,
            Expression::Negated(e) => ((p - e.eval(cells, p)) % (p as int)) as nat,
            Expression::Sum(a, b) => (a.eval(cells, p) + b.eval(cells, p)) % p,
            Expression::Product(a, b) => (a.eval(cells, p) * b.eval(cells, p)) % p,
        }
    }
}

/// What a gate is for.
#[derive(Clone, Copy, Debug, PartialEq, Eq, Structural)]
pub enum GateName {
    /// Ties the two running sums to `value - min` and `max - value`.
    RangeDifference,
    /// Makes each step of a running sum shed one bit.
    RangeBit,
    /// Makes both running sums end at zero.
    RangeEnd,
}

/// A gate: on every row where `selector` is enabled each of `polys` must vanish.
#[derive(Debug, PartialEq, Eq)]
pub struct Gate {
    pub name: GateName,
    pub selector: Selector,
    pub polys: Vec<Expression>,
}

/// A chip whose columns and gates are its own business, configured on the
/// circuit with the parameters that the circuit chose for it.
#[derive(Clone, Copy, Debug, PartialEq, Eq)]
pub enum ChipConfig {
    /// The main gate of the non-native arithmetic.
    MainGate,
    /// The range chip that bounds the limbs of non-native integers, composing
    /// each limb from lookups of `composition_bits` bits.
    RangeChip { composition_bits: usize },
    /// The hash gadget's chip on the columns of `config`.
    Poseidon { config: PoseidonConfig },
}

/// The shape of a circuit under construction. Gadgets take it by exclusive
/// reference while they configure themselves, and each keeps only the handles of
/// the columns that it allocated.
#[derive(Debug, PartialEq, Eq)]
pub struct ConstraintSystem {
    /// The advice columns, in the order of their allocation.
    pub advice: Vec<Column>,
    /// The fixed columns, in the order of their allocation.
    pub fixed: Vec<Column>,
    /// The instance columns, in the order of their allocation.
    pub instance: Vec<Column>,
    /// The selectors, in the order of their allocation.
    pub selectors: Vec<Selector>,
    /// The columns whose cells may take part in equality constraints.
    pub equality: Vec<Column>,
    /// The fixed columns that constants may be assigned to.
    pub constants: Vec<Column>,
    pub gates: Vec<Gate>,
    pub chips: Vec<ChipConfig>,
}

/// Whether two gates have the same name, selector and polynomials.
pub open spec fn same_gate(a: Gate, b: Gate) -> bool {
    a.name == b.name && a.selector == b.selector && a.polys@ =~= b.polys@
}

/// Whether two circuits have the same shape: the same columns of each kind and
/// the same selectors, and the same equality columns, constant columns, chips
/// and gates, in the same order.
pub open spec fn same_shape(a: ConstraintSystem, b: ConstraintSystem) -> bool {
    &&& a.advice@ =~= b.advice@
    &&& a.fixed@ =~= b.fixed@
    &&& a.instance@ =~= b.instance@
    &&& a.selectors@ =~= b.selectors@
    &&& a.equality@ =~= b.equality@
    &&& a.constants@ =~= b.constants@
    &&& a.chips@ =~= b.chips@
    &&& a.gates@.len() == b.gates@.len()
    &&& forall|i: int| 0 <= i < a.gates@.len() ==> same_gate(#[trigger] a.gates@[i], b.gates@[i])
}

/// The `count` columns of a kind that are allocated after `start` columns of
/// that kind.
pub open spec fn fresh(kind: ColumnKind, start: nat, count: nat) -> Seq<Column> {
    Seq::new(count, |k: int| Column { kind, index: (start + k) as usize })
}

/// The `count` selectors that are allocated after `start` selectors.
pub open spec fn fresh_selectors(start: nat, count: nat) -> Seq<Selector> {
    Seq::new(count, |k: int| Selector { index: (start + k) as usize })
}

/// Whether `after` has the columns and selectors of `before` and then, in the
/// order of allocation, so many more of each.
pub open spec fn columns_grown(
    before: ConstraintSystem,
    after: ConstraintSystem,
    advice: nat,
    fixed: nat,
    instance: nat,
    selectors: nat,
) -> bool {
    &&& after.advice@ =~= before.advice@ + fresh(ColumnKind::Advice, before.advice@.len(), advice)
    &&& after.fixed@ =~= before.fixed@ + fresh(ColumnKind::Fixed, before.fixed@.len(), fixed)
    &&& after.instance@ =~= before.instance@ + fresh(
        ColumnKind::Instance,
        before.instance@.len(),
        instance,
    )
    &&& after.selectors@ =~= before.selectors@ + fresh_selectors(
        before.selectors@.len(),
        selectors,
    )
}

/// Whether `after` has the equality columns, constant columns, gates and chips
/// of `before`.
pub open spec fn rest_kept(before: ConstraintSystem, after: ConstraintSystem) -> bool {
    &&& after.equality@ =~= before.equality@
    &&& after.constants@ =~= before.constants@
    &&& after.gates@ =~= before.gates@
    &&& after.chips@ =~= before.chips@
}

/// The columns of each kind and the selectors can be numbered: there are no
/// more of them than the machine can count.
pub proof fn lemma_counts_fit(cs: &ConstraintSystem)
    ensures
        cs.advice@.len() <= usize::MAX,
        cs.fixed@.len() <= usize::MAX,
        cs.instance@.len() <= usize::MAX,
        cs.selectors@.len() <= usize::MAX,
{
    assert(cs.advice.len() == cs.advice@.len());
    assert(cs.fixed.len() == cs.fixed@.len());
    assert(cs.instance.len() == cs.instance@.len());
    assert(cs.selectors.len() == cs.selectors@.len());
}

impl ConstraintSystem {
    /// The number of advice columns.
    pub open spec fn num_advice(&self) -> usize {
        self.advice@.len() as usize
    }

    /// The number of fixed columns.
    pub open spec fn num_fixed(&self) -> usize {
        self.fixed@.len() as usize
    }

    /// The number of instance columns.
    pub open spec fn num_instance(&self) -> usize {
        self.instance@.len() as usize
    }

    /// The number of selectors.
    pub open spec fn num_selectors(&self) -> usize {
        self.selectors@.len() as usize
    }

    /// A circuit without columns, selectors or gates.
    pub fn new() -> (cs: ConstraintSystem)
        ensures
            cs.advice@ == Seq::<Column>::empty(),
            cs.fixed@ == Seq::<Column>::empty(),
            cs.instance@ == Seq::<Column>::empty(),
            cs.selectors@ == Seq::<Selector>::empty(),
            cs.equality@ == Seq::<Column>::empty(),
            cs.constants@ == Seq::<Column>::empty(),
            cs.gates@ == Seq::<Gate>::empty(),
            cs.chips@ == Seq::<ChipConfig>::empty(),
    {
        ConstraintSystem {
            advice: Vec::new(),
            fixed: Vec::new(),
            instance: Vec::new(),
            selectors: Vec::new(),
            equality: Vec::new(),
            constants: Vec::new(),
            gates: Vec::new(),
            chips: Vec::new(),
        }
    }

    /// Allocates the next advice column.
    pub fn advice_column(&mut self) -> (c: Column)
        ensures
            c == (Column { kind: ColumnKind::Advice, index: old(self).num_advice() }),
            columns_grown(*old(self), *final(self), 1, 0, 0, 0),
            rest_kept(*old(self), *final(self)),
    {
        let c = Column { kind: ColumnKind::Advice, index: self.advice.len() };
        self.advice.push(c);
        c
    }

    /// Allocates the next fixed column.
    pub fn fixed_column(&mut self) -> (c: Column)
        ensures
            c == (Column { kind: ColumnKind::Fixed, index: old(self).num_fixed() }),
            columns_grown(*old(self), *final(self), 0, 1, 0, 0),
            rest_kept(*old(self), *final(self)),
    {
        let c = Column { kind: ColumnKind::Fixed, index: self.fixed.len() };
        self.fixed.push(c);
        c
    }

    /// Allocates the next instance column.
    pub fn instance_column(&mut self) -> (c: Column)
        ensures
            c == (Column { kind: ColumnKind::Instance, index: old(self).num_instance() }),
            columns_grown(*old(self), *final(self), 0, 0, 1, 0),
            rest_kept(*old(self), *final(self)),
    {
        let c = Column { kind: ColumnKind::Instance, index: self.instance.len() };
        self.instance.push(c);
        c
    }

    /// Allocates the next selector.
    pub fn selector(&mut self) -> (s: Selector)
        ensures
            s == (Selector { index: old(self).num_selectors() }),
            columns_grown(*old(self), *final(self), 0, 0, 0, 1),
            rest_kept(*old(self), *final(self)),
    {
        let s = Selector { index: self.selectors.len() };
        self.selectors.push(s);
        s
    }

    /// Lets cells of `column` take part in equality constraints.
    pub fn enable_equality(&mut self, column: Column)
        ensures
            final(self).equality@ == old(self).equality@.push(column),
            final(self).constants@ == old(self).constants@,
            final(self).gates@ == old(self).gates@,
            final(self).chips@ == old(self).chips@,
            columns_grown(*old(self), *final(self), 0, 0, 0, 0),
    {
        self.equality.push(column);
    }

    /// Lets constants be assigned to the fixed column `column`.
    pub fn enable_constant(&mut self, column: Column)
        ensures
            final(self).constants@ == old(self).constants@.push(column),
            final(self).equality@ == old(self).equality@,
            final(self).gates@ == old(self).gates@,
            final(self).chips@ == old(self).chips@,
            columns_grown(*old(self), *final(self), 0, 0, 0, 0),
    {
        self.constants.push(column);
    }

    /// Configures a chip on the circuit.
    pub fn configure_chip(&mut self, chip: ChipConfig)
        ensures
            final(self).chips@ == old(self).chips@.push(chip),
            final(self).equality@ == old(self).equality@,
            final(self).constants@ == old(self).constants@,
            final(self).gates@ == old(self).gates@,
            columns_grown(*old(self), *final(self), 0, 0, 0, 0),
    {
        self.chips.push(chip);
    }

    /// Registers a gate.
    pub fn create_gate(&mut self, gate: Gate)
        ensures
            final(self).gates@ == old(self).gates@.push(gate),
            final(self).equality@ == old(self).equality@,
            final(self).constants@ == old(self).constants@,
            final(self).chips@ == old(self).chips@,
            columns_grown(*old(self), *final(self), 0, 0, 0, 0),
    {
        self.gates.push(gate);
    }
}

} // verus!
