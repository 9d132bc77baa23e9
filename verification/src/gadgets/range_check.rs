//! The range assertion gadget: `min <= value <= max` over the integers, shown
//! by decomposing the lower bound and the two differences `value - min` and
//! `max - value` into bits.
//!
//! A gate that only multiplies a selector with the two differences would force
//! both to zero, that is `value = min = max`; a field has no order to appeal to.
//! Here the lower bound and each difference head a running sum that sheds one
//! bit per row and must end at zero after `RANGE_BITS` rows, which holds
//! exactly of the integers below two to the power `RANGE_BITS`. With all three
//! that small, neither `min + (value - min)` nor `value + (max - value)` can
//! wrap around the field's order, so the differences are those of the integers.

use crate::cs::{
    columns_grown, same_gate, same_shape, Column, ColumnKind, ConstraintSystem, Expression, Gate, GateName,
    Selector,
};
use crate::error::{Error, Gadget};
use crate::field::{fe, lemma_fe_of_view, lemma_fe_view, modulus, sub_mod, Fe};
use crate::layouter::{is_assign, satisfied, AssignedCell, Cell, Layouter, Op, RegionName};
use crate::uint::pow2_64;
use vstd::prelude::*;

verus! {

/// The number of bits that each difference is decomposed into.
pub const RANGE_BITS: usize = 64;

/// The relation that the gadget enforces on three field elements, given by their
/// integers: the lower bound and both differences, taken in the field, fit in
/// `RANGE_BITS` bits.
pub open spec fn in_range(value: nat, min: nat, max: nat) -> bool {
    min < pow2_64() && sub_mod(value, min) < pow2_64() && sub_mod(max, value) < pow2_64()
}

/// Decides the gadget's relation.
pub fn range_holds(value: &Fe, min: &Fe, max: &Fe) -> (b: bool)
    ensures
        b == in_range(value@, min@, max@),
{
    let low = value.sub(min).to_u256();
    let high = max.sub(value).to_u256();
    min.to_u256().fits_u64() && low.fits_u64() && high.fits_u64()
}

/// The gadget's relation holds exactly of the values from `min` to `max`, in
/// the order of the integers, whose lower bound is below two to the power
/// `RANGE_BITS` and which are less than that away from either bound.
pub proof fn lemma_in_range_is_order(value: nat, min: nat, max: nat)
    requires
        value < modulus(),
        min < modulus(),
        max < modulus(),
    ensures
        in_range(value, min, max) <==> min <= value <= max && min < pow2_64() && value - min
            < pow2_64() && max - value < pow2_64(),
{
    let p = modulus() as int;
    let a = value as int - min as int;
    let b = max as int - value as int;
    assert(-p < a < p && -p < b < p);
    if a >= 0 {
        assert(a % p == a);
    } else {
        assert(a % p == a + p);
    }
    if b >= 0 {
        assert(b % p == b);
    } else {
        assert(b % p == b + p);
    }
}

/// A value between bounds is in range, where the lower bound is below two to
/// the power `RANGE_BITS` and the bounds are less than that apart.
pub proof fn lemma_within_bounds_accepted(value: nat, min: nat, max: nat)
    requires
        min <= value <= max < modulus(),
        min < pow2_64(),
        max - min < pow2_64(),
    ensures
        in_range(value, min, max),
{
    lemma_in_range_is_order(value, min, max);
}

/// A value beyond the upper bound is not in range.
pub proof fn lemma_beyond_max_rejected(value: nat, min: nat, max: nat)
    requires
        max < value < modulus(),
        min < modulus(),
    ensures
        !in_range(value, min, max),
{
    lemma_in_range_is_order(value, min, max);
}

/// A value below the lower bound is not in range.
pub proof fn lemma_below_min_rejected(value: nat, min: nat, max: nat)
    requires
        value < min < modulus(),
        max < modulus(),
    ensures
        !in_range(value, min, max),
{
    lemma_in_range_is_order(value, min, max);
}

/// The columns and selectors of the gadget.
#[derive(Clone, Copy, Debug, PartialEq, Eq, Structural)]
pub struct RangeCheckConfig {
    /// The range-checked value.
    pub value: Column,
    /// The lower bound.
    pub min: Column,
    /// The upper bound.
    pub max: Column,
    /// The running sum of `value - min`.
    pub low: Column,
    /// The running sum of `max - value`.
    pub high: Column,
    /// The running sum of `min`.
    pub floor: Column,
    /// Enabled on the row that holds value, bounds and both differences.
    pub selector: Selector,
    /// Enabled on each row of a running sum but the last.
    pub bit_selector: Selector,
    /// Enabled on the last row of a running sum.
    pub end_selector: Selector,
}

impl RangeCheckConfig {
    /// No two of the six columns are the same, and no two of the three selectors.
    pub open spec fn wf(&self) -> bool {
        &&& self.selector != self.bit_selector
        &&& self.selector != self.end_selector
        &&& self.bit_selector != self.end_selector
        &&& self.value.index != self.min.index
        &&& self.value.index != self.max.index
        &&& self.value.index != self.low.index
        &&& self.value.index != self.high.index
        &&& self.min.index != self.max.index
        &&& self.min.index != self.low.index
        &&& self.min.index != self.high.index
        &&& self.max.index != self.low.index
        &&& self.max.index != self.high.index
        &&& self.low.index != self.high.index
        &&& self.floor.index != self.value.index
        &&& self.floor.index != self.min.index
        &&& self.floor.index != self.max.index
        &&& self.floor.index != self.low.index
        &&& self.floor.index != self.high.index
    }

    /// Decides whether the configuration is well formed.
    pub fn is_wf(&self) -> (b: bool)
        ensures
            b == self.wf(),
    {
        let columns = [
            self.value.index,
            self.min.index,
            self.max.index,
            self.low.index,
            self.high.index,
            self.floor.index,
        ];
        self.selector.index != self.bit_selector.index && self.selector.index
            != self.end_selector.index && self.bit_selector.index != self.end_selector.index
            && columns[0] != columns[1] && columns[0] != columns[2] && columns[0] != columns[3]
            && columns[0] != columns[4] && columns[0] != columns[5] && columns[1] != columns[2]
            && columns[1] != columns[3] && columns[1] != columns[4] && columns[1] != columns[5]
            && columns[2] != columns[3] && columns[2] != columns[4] && columns[2] != columns[5]
            && columns[3] != columns[4] && columns[3] != columns[5] && columns[4] != columns[5]
    }
}

/// The advice cell of `column` on the current row.
pub open spec fn cur(column: usize) -> Expression {
    Expression::Advice { column, rotation: 0 }
}

/// The advice cell of `column` on the next row.
pub open spec fn next(column: usize) -> Expression {
    Expression::Advice { column, rotation: 1 }
}

/// The polynomial `a - b`.
pub open spec fn minus(a: Expression, b: Expression) -> Expression {
    Expression::Sum(Box::new(a), Box::new(Expression::Negated(Box::new(b))))
}

/// The polynomial `sum - (a - b)`, which vanishes where the cell of `sum` holds
/// the difference of the cells of `a` and `b`.
pub open spec fn difference_poly(sum: usize, a: usize, b: usize) -> Expression {
    minus(cur(sum), minus(cur(a), cur(b)))
}

/// The polynomial `a - b` of the cells of two columns, which vanishes where the
/// two cells hold the same.
pub open spec fn equal_poly(a: usize, b: usize) -> Expression {
    minus(cur(a), cur(b))
}

/// The bit that a running sum sheds between the current row and the next:
/// `sum - 2 * sum_next`.
pub open spec fn shed_bit(sum: usize) -> Expression {
    minus(
        cur(sum),
        Expression::Product(Box::new(Expression::Constant(2)), Box::new(next(sum))),
    )
}

/// The polynomial `bit * (1 - bit)` of the bit that a running sum sheds, which
/// vanishes where that bit is zero or one.
pub open spec fn bit_poly(sum: usize) -> Expression {
    Expression::Product(
        Box::new(shed_bit(sum)),
        Box::new(minus(Expression::Constant(1), shed_bit(sum))),
    )
}

/// Whether `gate` ties the heads of the running sums to the two differences
/// and to the lower bound.
pub open spec fn is_difference_gate(gate: Gate, config: RangeCheckConfig) -> bool {
    &&& gate.name == GateName::RangeDifference
    &&& gate.selector == config.selector
    &&& gate.polys@ =~= seq![
        difference_poly(config.low.index, config.value.index, config.min.index),
        difference_poly(config.high.index, config.max.index, config.value.index),
        equal_poly(config.floor.index, config.min.index),
    ]
}

/// Whether `gate` makes each step of the running sums shed one bit.
pub open spec fn is_bit_gate(gate: Gate, config: RangeCheckConfig) -> bool {
    &&& gate.name == GateName::RangeBit
    &&& gate.selector == config.bit_selector
    &&& gate.polys@ =~= seq![
        bit_poly(config.low.index),
        bit_poly(config.high.index),
        bit_poly(config.floor.index),
    ]
}

/// Whether `gate` makes the running sums end at zero.
pub open spec fn is_end_gate(gate: Gate, config: RangeCheckConfig) -> bool {
    &&& gate.name == GateName::RangeEnd
    &&& gate.selector == config.end_selector
    &&& gate.polys@ =~= seq![
        cur(config.low.index),
        cur(config.high.index),
        cur(config.floor.index),
    ]
}

/// The gadget's columns and selectors where it is configured after `advice`
/// advice columns and `selectors` selectors.
pub open spec fn range_columns(advice: usize, selectors: usize) -> RangeCheckConfig {
    RangeCheckConfig {
        value: Column { kind: ColumnKind::Advice, index: advice },
        min: Column { kind: ColumnKind::Advice, index: (advice + 1) as usize },
        max: Column { kind: ColumnKind::Advice, index: (advice + 2) as usize },
        low: Column { kind: ColumnKind::Advice, index: (advice + 3) as usize },
        high: Column { kind: ColumnKind::Advice, index: (advice + 4) as usize },
        floor: Column { kind: ColumnKind::Advice, index: (advice + 5) as usize },
        selector: Selector { index: selectors },
        bit_selector: Selector { index: (selectors + 1) as usize },
        end_selector: Selector { index: (selectors + 2) as usize },
    }
}

/// Whether `after` holds the gates of `before` and then the gadget's three gates.
pub open spec fn range_gates_added(before: Seq<Gate>, after: Seq<Gate>, config: RangeCheckConfig)
    -> bool {
    &&& after.len() == before.len() + 3
    &&& after.take(before.len() as int) =~= before
    &&& is_difference_gate(after[before.len() as int], config)
    &&& is_bit_gate(after[before.len() as int + 1], config)
    &&& is_end_gate(after[before.len() as int + 2], config)
}

/// What configuring the gadget makes of a circuit's shape: six more advice
/// columns, three more selectors, equality on the columns of value and bounds,
/// so that their cells can be copied in, and the three gates.
pub open spec fn configured(
    before: ConstraintSystem,
    after: ConstraintSystem,
    config: RangeCheckConfig,
) -> bool {
    &&& config == range_columns(before.num_advice(), before.num_selectors())
    &&& columns_grown(before, after, 6, 0, 0, 3)
    &&& after.equality@ =~= before.equality@.push(config.value).push(config.min).push(config.max)
    &&& after.chips@ =~= before.chips@
    &&& after.constants@ =~= before.constants@
    &&& range_gates_added(before.gates@, after.gates@, config)
}

/// Configuring the gadget on the same shape twice gives the same columns and
/// the same shape.
pub proof fn lemma_configure_deterministic(
    before: ConstraintSystem,
    first: ConstraintSystem,
    first_config: RangeCheckConfig,
    second: ConstraintSystem,
    second_config: RangeCheckConfig,
)
    requires
        configured(before, first, first_config),
        configured(before, second, second_config),
    ensures
        first_config == second_config,
        same_shape(first, second),
{
    lemma_same_gates(before.gates@, first.gates@, second.gates@, first_config);
}

/// Two sequences of gates that both hold the gates of `before` and then the
/// gadget's three gates are the same gate by gate.
pub proof fn lemma_same_gates(
    before: Seq<Gate>,
    first: Seq<Gate>,
    second: Seq<Gate>,
    config: RangeCheckConfig,
)
    requires
        range_gates_added(before, first, config),
        range_gates_added(before, second, config),
    ensures
        first.len() == second.len(),
        forall|i: int| 0 <= i < first.len() ==> same_gate(#[trigger] first[i], second[i]),
{
    assert forall|i: int| 0 <= i < first.len() implies same_gate(#[trigger] first[i], second[i]) by {
        if i < before.len() {
            assert(first[i] == first.take(before.len() as int)[i]);
            assert(second[i] == second.take(before.len() as int)[i]);
        }
    }
}

/// The value of the polynomial `a - b`: the value of `a` less that of `b`,
/// taken in the field.
pub proof fn lemma_minus_value(a: Expression, b: Expression, cells: spec_fn(usize, usize) -> nat)
    requires
        a.eval(cells, modulus()) < modulus(),
        b.eval(cells, modulus()) < modulus(),
    ensures
        minus(a, b).eval(cells, modulus()) == sub_mod(
            a.eval(cells, modulus()),
            b.eval(cells, modulus()),
        ),
        minus(a, b).eval(cells, modulus()) < modulus(),
{
    let p = modulus();
    let x = a.eval(cells, p);
    let y = b.eval(cells, p);
    let negated = Expression::Negated(Box::new(b));
    assert(negated.eval(cells, p) == ((p - y) % (p as int)) as nat);
    assert(negated.eval(cells, p) == if y == 0 {
        0
    } else {
        (p - y) as nat
    });
    assert(minus(a, b).eval(cells, p) == (x + negated.eval(cells, p)) % p);
    if x >= y {
        assert((x as int - y as int) % (p as int) == x - y);
    } else {
        assert((x as int - y as int) % (p as int) == x - y + p);
    }
}

/// The value of the polynomial of a difference: what the cell of the running
/// sum holds, less the difference of the cells of `a` and `b`, all taken in
/// the field.
pub proof fn lemma_difference_poly_value(
    sum: usize,
    a: usize,
    b: usize,
    cells: spec_fn(usize, usize) -> nat,
)
    requires
        cells(a, 0) < modulus(),
        cells(b, 0) < modulus(),
    ensures
        difference_poly(sum, a, b).eval(cells, modulus()) == sub_mod(
            cells(sum, 0) % modulus(),
            sub_mod(cells(a, 0), cells(b, 0)),
        ),
{
    lemma_minus_value(cur(a), cur(b), cells);
    lemma_minus_value(cur(sum), minus(cur(a), cur(b)), cells);
}

/// The value of the polynomial of two cells that are to be equal: what the
/// first holds less what the second holds, taken in the field.
pub proof fn lemma_equal_poly_value(a: usize, b: usize, cells: spec_fn(usize, usize) -> nat)
    ensures
        equal_poly(a, b).eval(cells, modulus()) == sub_mod(
            cells(a, 0) % modulus(),
            cells(b, 0) % modulus(),
        ),
{
    lemma_minus_value(cur(a), cur(b), cells);
}

/// The polynomial of a difference vanishes on a row whose cell of the running
/// sum holds the difference, taken in the field, of the cells of `a` and `b`.
pub proof fn lemma_difference_gate_vanishes(
    sum: usize,
    a: usize,
    b: usize,
    cells: spec_fn(usize, usize) -> nat,
)
    requires
        cells(a, 0) < modulus(),
        cells(b, 0) < modulus(),
        cells(sum, 0) == sub_mod(cells(a, 0), cells(b, 0)),
    ensures
        difference_poly(sum, a, b).eval(cells, modulus()) == 0,
{
    lemma_difference_poly_value(sum, a, b, cells);
}

/// The low `RANGE_BITS` bits of a running sum shed one bit per row: what a row
/// holds is twice what the next row holds, plus zero or one.
pub proof fn lemma_running_sum_step(difference: nat, row: nat)
    requires
        difference < pow2_64(),
        row < RANGE_BITS,
    ensures
        running_sum(difference, row) == 2 * running_sum(difference, row + 1)
            || running_sum(difference, row) == 2 * running_sum(difference, row + 1) + 1,
        running_sum(difference, row) < pow2_64(),
{
    let d = difference as u64;
    let r = row as u64;
    assert(r < 64 ==> ((d >> r) == 2 * ((d >> r) >> 1) || (d >> r) == 2 * ((d >> r) >> 1) + 1))
        by (bit_vector);
    assert(r < 63 ==> (d >> r) >> 1 == d >> ((r + 1) as u64)) by (bit_vector);
    assert(r == 63 ==> (d >> r) >> 1 == 0) by (bit_vector);
    assert(d >> 0 == d) by (bit_vector);
}

/// The polynomial of a shed bit vanishes on every row of a running sum but the
/// last, where the difference that heads the sum is below two to the power
/// `RANGE_BITS`.
pub proof fn lemma_bit_gate_vanishes(
    sum: usize,
    cells: spec_fn(usize, usize) -> nat,
    difference: nat,
    row: nat,
)
    requires
        difference < pow2_64(),
        row < RANGE_BITS,
        cells(sum, 0) == running_sum(difference, row),
        cells(sum, 1) == running_sum(difference, row + 1),
    ensures
        bit_poly(sum).eval(cells, modulus()) == 0,
{
    reveal_with_fuel(Expression::eval, 6);
    lemma_running_sum_step(difference, row);
    let p = modulus() as int;
    let z = cells(sum, 0) as int;
    let next = cells(sum, 1) as int;
    let bit = z - 2 * next;
    assert(bit == 0 || bit == 1);
    let doubled = Expression::Product(Box::new(Expression::Constant(2)), Box::new(self::next(sum)));
    assert(doubled.eval(cells, modulus()) == 2 * next) by {
        assert(2 * next < p);
        assert((2int % p) * (next % p) == 2 * next);
    }
    assert(shed_bit(sum).eval(cells, modulus()) == bit);
    assert(minus(Expression::Constant(1), shed_bit(sum)).eval(cells, modulus()) == 1 - bit);
    assert(bit * (1 - bit) == 0) by (nonlinear_arith)
        requires
            bit == 0 || bit == 1,
    ;
}

/// The last row of a running sum holds zero, so the polynomial of its end vanishes.
pub proof fn lemma_end_gate_vanishes(
    sum: usize,
    cells: spec_fn(usize, usize) -> nat,
    difference: nat,
)
    requires
        cells(sum, 0) == running_sum(difference, RANGE_BITS as nat),
    ensures
        cur(sum).eval(cells, modulus()) == 0,
{
}

fn cur_cell(column: &Column) -> (e: Expression)
    ensures
        e == cur(column.index),
{
    Expression::Advice { column: column.index, rotation: 0 }
}

fn minus_of(a: Expression, b: Expression) -> (e: Expression)
    ensures
        e == minus(a, b),
{
    Expression::Sum(Box::new(a), Box::new(Expression::Negated(Box::new(b))))
}

fn difference_of(sum: &Column, a: &Column, b: &Column) -> (e: Expression)
    ensures
        e == difference_poly(sum.index, a.index, b.index),
{
    minus_of(cur_cell(sum), minus_of(cur_cell(a), cur_cell(b)))
}

fn shed_bit_of(sum: &Column) -> (e: Expression)
    ensures
        e == shed_bit(sum.index),
{
    let doubled = Expression::Product(
        Box::new(Expression::Constant(2)),
        Box::new(Expression::Advice { column: sum.index, rotation: 1 }),
    );
    minus_of(cur_cell(sum), doubled)
}

fn bit_poly_of(sum: &Column) -> (e: Expression)
    ensures
        e == bit_poly(sum.index),
{
    Expression::Product(
        Box::new(shed_bit_of(sum)),
        Box::new(minus_of(Expression::Constant(1), shed_bit_of(sum))),
    )
}

/// The value on row `row` of the running sum that `difference` heads: the
/// difference itself on the first row, then its low `RANGE_BITS` bits with one
/// more bit shed on each row, and zero on the last row.
pub open spec fn running_sum(difference: nat, row: nat) -> nat {
    if row == 0 {
        difference
    } else if row < RANGE_BITS {
        (((difference % pow2_64()) as u64) >> (row as u64)) as nat
    } else {
        0
    }
}

/// The steps that lay a running sum out in `column`: for each of the rows
/// `0 ..= RANGE_BITS` the assignment of the row's value, then the selector of
/// the row, which is the bit selector on all rows but the last.
pub open spec fn sum_ops(
    config: RangeCheckConfig,
    region: usize,
    column: usize,
    difference: nat,
) -> Seq<Op> {
    Seq::new(
        2 * (RANGE_BITS + 1) as nat,
        |k: int|
            if k % 2 == 0 {
                Op::Assign {
                    cell: AssignedCell {
                        cell: Cell { region, column, offset: (k / 2) as usize },
                        value: fe(running_sum(difference, (k / 2) as nat)),
                    },
                }
            } else {
                Op::Enable {
                    selector: if k / 2 < RANGE_BITS {
                        config.bit_selector
                    } else {
                        config.end_selector
                    },
                    region,
                    offset: (k / 2) as usize,
                }
            },
    )
}

/// The cell of the first row of `column` in `region`, holding `value`.
pub open spec fn first_row(region: usize, column: Column, value: Fe) -> AssignedCell {
    AssignedCell { cell: Cell { region, column: column.index, offset: 0 }, value }
}

/// The steps that a range assertion adds to a layout, in the region `region`:
/// the row of value and bounds, each copied in from its cell of origin; the
/// three running sums; and the constraint of the range itself.
pub open spec fn range_ops(
    config: RangeCheckConfig,
    region: usize,
    value: AssignedCell,
    min: AssignedCell,
    max: AssignedCell,
) -> Seq<Op> {
    seq![
        Op::Region { name: RegionName::RangeCheck },
        Op::Enable { selector: config.selector, region, offset: 0 },
        Op::Assign { cell: first_row(region, config.value, value.value) },
        Op::Equal { left: value, right: first_row(region, config.value, value.value) },
        Op::Assign { cell: first_row(region, config.min, min.value) },
        Op::Equal { left: min, right: first_row(region, config.min, min.value) },
        Op::Assign { cell: first_row(region, config.max, max.value) },
        Op::Equal { left: max, right: first_row(region, config.max, max.value) },
    ] + sum_ops(config, region, config.low.index, sub_mod(value.value@, min.value@)) + sum_ops(
        config,
        region,
        config.high.index,
        sub_mod(max.value@, value.value@),
    ) + sum_ops(config, region, config.floor.index, min.value@) + seq![
        Op::Range {
            value: first_row(region, config.value, value.value),
            min: first_row(region, config.min, min.value),
            max: first_row(region, config.max, max.value),
        },
    ]
}

/// The value that a range assertion assigns to the cell of `column` on the row
/// `offset` of its region, and zero where it assigns none.
pub open spec fn range_cell(
    config: RangeCheckConfig,
    value: nat,
    min: nat,
    max: nat,
    column: usize,
    offset: nat,
) -> nat {
    if column == config.value.index {
        if offset == 0 {
            value
        } else {
            0
        }
    } else if column == config.min.index {
        if offset == 0 {
            min
        } else {
            0
        }
    } else if column == config.max.index {
        if offset == 0 {
            max
        } else {
            0
        }
    } else if column == config.low.index {
        running_sum(sub_mod(value, min), offset)
    } else if column == config.high.index {
        running_sum(sub_mod(max, value), offset)
    } else if column == config.floor.index {
        running_sum(min, offset)
    } else {
        0
    }
}

/// The cells of a region as a gate on the row `offset` sees them, where
/// `cells(column, row)` gives the value of each cell of the region.
pub open spec fn row_view(cells: spec_fn(usize, nat) -> nat, offset: nat) -> spec_fn(
    usize,
    usize,
) -> nat {
    |column: usize, rotation: usize| cells(column, (offset + rotation) as nat)
}

/// The cells of a range assertion.
pub open spec fn range_cells(config: RangeCheckConfig, value: nat, min: nat, max: nat) -> spec_fn(
    usize,
    nat,
) -> nat {
    |column: usize, row: nat| range_cell(config, value, min, max, column, row)
}

/// The cells of a range assertion as a gate on the row `offset` sees them.
pub open spec fn range_row(config: RangeCheckConfig, value: nat, min: nat, max: nat, offset: nat)
    -> spec_fn(usize, usize) -> nat {
    row_view(range_cells(config, value, min, max), offset)
}

/// Whether the gadget's gates vanish on the cells of a region wherever a range
/// assertion enables them: the polynomials of the differences on the first row,
/// those of the shed bits on the `RANGE_BITS` rows from the first, and those of
/// the end on the row after these.
pub open spec fn gates_vanish_on(config: RangeCheckConfig, cells: spec_fn(usize, nat) -> nat)
    -> bool {
    let p = modulus();
    let (low, high, floor) = (config.low.index, config.high.index, config.floor.index);
    &&& difference_poly(low, config.value.index, config.min.index).eval(row_view(cells, 0), p) == 0
    &&& difference_poly(high, config.max.index, config.value.index).eval(row_view(cells, 0), p)
        == 0
    &&& equal_poly(floor, config.min.index).eval(row_view(cells, 0), p) == 0
    &&& forall|row: nat|
        row < RANGE_BITS ==> bit_poly(low).eval(#[trigger] row_view(cells, row), p) == 0
            && bit_poly(high).eval(row_view(cells, row), p) == 0 && bit_poly(floor).eval(
            row_view(cells, row),
            p,
        ) == 0
    &&& cur(low).eval(row_view(cells, RANGE_BITS as nat), p) == 0
    &&& cur(high).eval(row_view(cells, RANGE_BITS as nat), p) == 0
    &&& cur(floor).eval(row_view(cells, RANGE_BITS as nat), p) == 0
}

/// `a * b` modulo `p`.
pub open spec fn mul_mod(a: nat, b: nat, p: nat) -> nat {
    (a * b) % p
}

/// Whether a product of two integers below `p` is a multiple of `p` only where
/// one of the two is zero, as it is for a prime `p`.
pub open spec fn no_zero_divisors(p: nat) -> bool {
    forall|a: nat, b: nat| a < p && b < p && #[trigger] mul_mod(a, b, p) == 0 ==> a == 0 || b == 0
}

/// Whether every polynomial that `selector` enables vanishes on the row
/// `offset` of a range assertion.
pub open spec fn gate_vanishes(
    config: RangeCheckConfig,
    value: nat,
    min: nat,
    max: nat,
    selector: Selector,
    offset: nat,
) -> bool {
    let cells = range_row(config, value, min, max, offset);
    let (low, high, floor) = (config.low.index, config.high.index, config.floor.index);
    &&& selector == config.selector ==> {
        &&& difference_poly(low, config.value.index, config.min.index).eval(cells, modulus()) == 0
        &&& difference_poly(high, config.max.index, config.value.index).eval(cells, modulus())
            == 0
        &&& equal_poly(floor, config.min.index).eval(cells, modulus()) == 0
    }
    &&& selector == config.bit_selector ==> {
        &&& bit_poly(low).eval(cells, modulus()) == 0
        &&& bit_poly(high).eval(cells, modulus()) == 0
        &&& bit_poly(floor).eval(cells, modulus()) == 0
    }
    &&& selector == config.end_selector ==> {
        &&& cur(low).eval(cells, modulus()) == 0
        &&& cur(high).eval(cells, modulus()) == 0
        &&& cur(floor).eval(cells, modulus()) == 0
    }
}

/// Every assignment of a range assertion lies in the assertion's region and
/// assigns what `range_cell` says, and every selector that the assertion
/// enables, it enables in that region.
pub proof fn lemma_range_layout(
    config: RangeCheckConfig,
    region: usize,
    value: AssignedCell,
    min: AssignedCell,
    max: AssignedCell,
    k: int,
)
    requires
        config.wf(),
        value.value@ < modulus(),
        min.value@ < modulus(),
        max.value@ < modulus(),
        0 <= k < range_ops(config, region, value, min, max).len(),
    ensures
        range_ops(config, region, value, min, max)[k] matches Op::Assign { cell } ==> {
            &&& cell.cell.region == region
            &&& cell.value@ == range_cell(
                config,
                value.value@,
                min.value@,
                max.value@,
                cell.cell.column,
                cell.cell.offset as nat,
            )
        },
        range_ops(config, region, value, min, max)[k] matches Op::Enable {
            selector,
            region: r,
            offset,
        } ==> {
            &&& r == region
            &&& offset <= RANGE_BITS
            &&& selector == config.selector ==> offset == 0
            &&& selector == config.bit_selector ==> offset < RANGE_BITS
            &&& selector == config.end_selector ==> offset == RANGE_BITS
        },
{
    let low = sub_mod(value.value@, min.value@);
    let high = sub_mod(max.value@, value.value@);
    let head = seq![
        Op::Region { name: RegionName::RangeCheck },
        Op::Enable { selector: config.selector, region, offset: 0 },
        Op::Assign { cell: first_row(region, config.value, value.value) },
        Op::Equal { left: value, right: first_row(region, config.value, value.value) },
        Op::Assign { cell: first_row(region, config.min, min.value) },
        Op::Equal { left: min, right: first_row(region, config.min, min.value) },
        Op::Assign { cell: first_row(region, config.max, max.value) },
        Op::Equal { left: max, right: first_row(region, config.max, max.value) },
    ];
    let lows = sum_ops(config, region, config.low.index, low);
    let highs = sum_ops(config, region, config.high.index, high);
    let floors = sum_ops(config, region, config.floor.index, min.value@);
    let all = range_ops(config, region, value, min, max);
    if k < 8 {
        assert(all[k] == head[k]);
    } else if k < 8 + lows.len() {
        let j = k - 8;
        assert(all[k] == lows[j]);
        if j % 2 == 0 {
            lemma_running_sum_bound(low, (j / 2) as nat);
            lemma_fe_view(running_sum(low, (j / 2) as nat));
        }
    } else if k < 8 + lows.len() + highs.len() {
        let j = k - 8 - lows.len();
        assert(all[k] == highs[j]);
        if j % 2 == 0 {
            lemma_running_sum_bound(high, (j / 2) as nat);
            lemma_fe_view(running_sum(high, (j / 2) as nat));
        }
    } else if k < 8 + lows.len() + highs.len() + floors.len() {
        let j = k - 8 - lows.len() - highs.len();
        assert(all[k] == floors[j]);
        if j % 2 == 0 {
            lemma_running_sum_bound(min.value@, (j / 2) as nat);
            lemma_fe_view(running_sum(min.value@, (j / 2) as nat));
        }
    }
}

/// Every value of a running sum is below the field's order, where the
/// difference that heads it is.
pub proof fn lemma_running_sum_bound(difference: nat, row: nat)
    requires
        difference < modulus(),
    ensures
        running_sum(difference, row) < modulus(),
{
}

/// For a value in range, each of the gadget's gates vanishes on every row on
/// which the assertion enables its selector.
pub proof fn lemma_gates_vanish(
    config: RangeCheckConfig,
    value: nat,
    min: nat,
    max: nat,
    selector: Selector,
    offset: nat,
)
    requires
        config.wf(),
        value < modulus(),
        min < modulus(),
        max < modulus(),
        in_range(value, min, max),
        offset <= RANGE_BITS,
        selector == config.selector ==> offset == 0,
        selector == config.bit_selector ==> offset < RANGE_BITS,
        selector == config.end_selector ==> offset == RANGE_BITS,
    ensures
        gate_vanishes(config, value, min, max, selector, offset),
{
    let cells = range_row(config, value, min, max, offset);
    let (low, high, floor) = (config.low.index, config.high.index, config.floor.index);
    if selector == config.selector {
        lemma_difference_gate_vanishes(low, config.value.index, config.min.index, cells);
        lemma_difference_gate_vanishes(high, config.max.index, config.value.index, cells);
        lemma_equal_poly_value(floor, config.min.index, cells);
    }
    if selector == config.bit_selector {
        lemma_bit_gate_vanishes(low, cells, sub_mod(value, min), offset);
        lemma_bit_gate_vanishes(high, cells, sub_mod(max, value), offset);
        lemma_bit_gate_vanishes(floor, cells, min, offset);
    }
    if selector == config.end_selector {
        lemma_end_gate_vanishes(low, cells, sub_mod(value, min));
        lemma_end_gate_vanishes(high, cells, sub_mod(max, value));
        lemma_end_gate_vanishes(floor, cells, min);
    }
}

/// For a value in range, the gadget's gates vanish on the cells of the
/// assertion wherever the assertion enables them.
pub proof fn lemma_gates_accept_range(config: RangeCheckConfig, value: nat, min: nat, max: nat)
    requires
        config.wf(),
        value < modulus(),
        min < modulus(),
        max < modulus(),
        in_range(value, min, max),
    ensures
        gates_vanish_on(config, range_cells(config, value, min, max)),
{
    let cells = range_cells(config, value, min, max);
    lemma_gates_vanish(config, value, min, max, config.selector, 0);
    lemma_gates_vanish(config, value, min, max, config.end_selector, RANGE_BITS as nat);
    assert forall|row: nat| row < RANGE_BITS implies bit_poly(config.low.index).eval(
        #[trigger] row_view(cells, row),
        modulus(),
    ) == 0 && bit_poly(config.high.index).eval(row_view(cells, row), modulus()) == 0
        && bit_poly(config.floor.index).eval(row_view(cells, row), modulus()) == 0 by {
        lemma_gates_vanish(config, value, min, max, config.bit_selector, row);
    }
}

/// Where the polynomial of a difference vanishes, the cell of the running sum
/// holds the difference of the cells of `a` and `b`, taken in the field.
pub proof fn lemma_difference_gate_forces(
    sum: usize,
    a: usize,
    b: usize,
    cells: spec_fn(usize, usize) -> nat,
)
    requires
        cells(a, 0) < modulus(),
        cells(b, 0) < modulus(),
        difference_poly(sum, a, b).eval(cells, modulus()) == 0,
    ensures
        cells(sum, 0) % modulus() == sub_mod(cells(a, 0), cells(b, 0)),
{
    lemma_difference_poly_value(sum, a, b, cells);
    let p = modulus() as int;
    let s = (cells(sum, 0) % modulus()) as int;
    let d = sub_mod(cells(a, 0), cells(b, 0)) as int;
    if s >= d {
        assert((s - d) % p == s - d);
    } else {
        assert((s - d) % p == s - d + p);
    }
}

/// Where the polynomial of a shed bit vanishes over a field without zero
/// divisors, what the row holds is twice what the next row holds, plus zero or
/// one, all taken in the field.
pub proof fn lemma_bit_gate_forces(sum: usize, cells: spec_fn(usize, usize) -> nat)
    requires
        no_zero_divisors(modulus()),
        bit_poly(sum).eval(cells, modulus()) == 0,
    ensures
        cells(sum, 0) % modulus() == (2 * (cells(sum, 1) % modulus())) % modulus() || cells(sum, 0)
            % modulus() == (2 * (cells(sum, 1) % modulus()) + 1) % modulus(),
{
    reveal_with_fuel(Expression::eval, 6);
    let p = modulus();
    let z = cells(sum, 0) % p;
    let n = cells(sum, 1) % p;
    let doubled = (2 * n) % p;
    assert(Expression::Product(
        Box::new(Expression::Constant(2)),
        Box::new(next(sum)),
    ).eval(cells, p) == doubled) by {
        assert(2nat % p == 2);
    }
    let bit = shed_bit(sum).eval(cells, p);
    assert(bit == (z + ((p - doubled) % (p as int)) as nat) % p);
    let rest = minus(Expression::Constant(1), shed_bit(sum)).eval(cells, p);
    assert(rest == (1 + ((p - bit) % (p as int)) as nat) % p) by {
        assert(1nat % p == 1);
    }
    assert(bit_poly(sum).eval(cells, p) == mul_mod(bit, rest, p));
    assert(bit == 0 || rest == 0);
    if bit == 0 {
        assert(z == doubled);
    } else {
        assert(bit == 1);
        assert(z == (doubled + 1) % p);
        assert((doubled + 1) % p == (2 * n + 1) % p) by {
            if 2 * n >= p {
                assert(doubled == 2 * n - p);
                assert((2 * n + 1) as int % (p as int) == 2 * n + 1 - p);
            }
        }
    }
}

/// Over a field without zero divisors, a running sum whose gates vanish from
/// the row `row` on holds on that row an integer of as many bits as there are
/// rows left.
pub proof fn lemma_running_sum_forced(sum: usize, cells: spec_fn(usize, nat) -> nat, row: nat)
    requires
        no_zero_divisors(modulus()),
        row <= RANGE_BITS,
        forall|j: nat|
            row <= j < RANGE_BITS ==> bit_poly(sum).eval(#[trigger] row_view(cells, j), modulus())
                == 0,
        cur(sum).eval(row_view(cells, RANGE_BITS as nat), modulus()) == 0,
    ensures
        cells(sum, row) % modulus() < vstd::arithmetic::power2::pow2((RANGE_BITS - row) as nat),
    decreases RANGE_BITS - row,
{
    let p = modulus();
    vstd::arithmetic::power2::lemma2_to64();
    if row == RANGE_BITS {
        assert(row_view(cells, RANGE_BITS as nat)(sum, 0) == cells(sum, row));
    } else {
        lemma_running_sum_forced(sum, cells, row + 1);
        let view = row_view(cells, row);
        assert(bit_poly(sum).eval(view, p) == 0);
        lemma_bit_gate_forces(sum, view);
        assert(view(sum, 0) == cells(sum, row));
        assert(view(sum, 1) == cells(sum, row + 1));
        let n = cells(sum, row + 1) % p;
        let left = (RANGE_BITS - row - 1) as nat;
        vstd::arithmetic::power2::lemma_pow2_unfold((RANGE_BITS - row) as nat);
        vstd::arithmetic::power2::lemma2_to64_rest();
        if left < 63 {
            vstd::arithmetic::power2::lemma_pow2_strictly_increases(left, 63);
        }
        assert(2 * n + 1 < pow2_64());
        assert((2 * n) % p == 2 * n);
        assert((2 * n + 1) % p == 2 * n + 1);
    }
}

/// Over a field without zero divisors, cells on which the gadget's gates vanish
/// wherever a range assertion enables them hold a value in range, whatever
/// else they hold: the gates admit no witness for a value out of range.
pub proof fn lemma_gates_force_range(config: RangeCheckConfig, cells: spec_fn(usize, nat) -> nat)
    requires
        no_zero_divisors(modulus()),
        gates_vanish_on(config, cells),
        cells(config.value.index, 0) < modulus(),
        cells(config.min.index, 0) < modulus(),
        cells(config.max.index, 0) < modulus(),
    ensures
        in_range(
            cells(config.value.index, 0),
            cells(config.min.index, 0),
            cells(config.max.index, 0),
        ),
{
    let (low, high, floor) = (config.low.index, config.high.index, config.floor.index);
    let first = row_view(cells, 0);
    lemma_difference_gate_forces(low, config.value.index, config.min.index, first);
    lemma_difference_gate_forces(high, config.max.index, config.value.index, first);
    lemma_equal_poly_value(floor, config.min.index, first);
    lemma_running_sum_forced(low, cells, 0);
    lemma_running_sum_forced(high, cells, 0);
    lemma_running_sum_forced(floor, cells, 0);
    vstd::arithmetic::power2::lemma2_to64_rest();
    assert(first(low, 0) == cells(low, 0));
    assert(first(high, 0) == cells(high, 0));
    assert(first(floor, 0) == cells(floor, 0));
    let p = modulus() as int;
    let bound = (cells(floor, 0) % modulus()) as int;
    let min = cells(config.min.index, 0) as int;
    assert(first(config.min.index, 0) == min);
    if bound >= min {
        assert((bound - min) % p == bound - min);
    } else {
        assert((bound - min) % p == bound - min + p);
    }
}

/// Whether `ops` assigns no cell of `column` in `region`.
pub open spec fn column_free(ops: Seq<Op>, region: usize, column: usize) -> bool {
    forall|i: int|
        0 <= i < ops.len() ==> !in_column(#[trigger] ops[i], region, column)
}

/// Whether `op` assigns a cell of `column` in `region`.
pub open spec fn in_column(op: Op, region: usize, column: usize) -> bool {
    op matches Op::Assign { cell: c } && c.cell.region == region && c.cell.column == column
}

/// Lays out the running sum of `difference` in `column`.
fn decompose(
    layouter: &mut Layouter,
    config: &RangeCheckConfig,
    region: usize,
    column: Column,
    difference: Fe,
) -> (r: Result<(), Error>)
    requires
        old(layouter).wf(),
        region < old(layouter).regions,
        column_free(old(layouter).ops@, region, column.index),
    ensures
        final(layouter).wf(),
        r is Ok,
        final(layouter).regions == old(layouter).regions,
        forall|instance: Seq<nat>| #[trigger]
            satisfied(final(layouter).ops@, instance) <==> satisfied(old(layouter).ops@, instance),
        final(layouter).ops@ == old(layouter).ops@ + sum_ops(
            *config,
            region,
            column.index,
            difference@,
        ),
{
    let limb = difference.to_u256().l0;
    proof {
        crate::uint::lemma_low_limb(difference.to_u256_spec());
    }
    let ghost before = layouter.ops@;
    let ghost all = sum_ops(*config, region, column.index, difference@);
    let mut row: usize = 0;
    while row <= RANGE_BITS
        invariant
            row <= RANGE_BITS + 1,
            layouter.wf(),
            region < layouter.regions,
            layouter.regions == old(layouter).regions,
            column_free(before, region, column.index),
            all == sum_ops(*config, region, column.index, difference@),
            limb as nat == difference@ % pow2_64(),
            before == old(layouter).ops@,
            forall|instance: Seq<nat>| #[trigger]
                satisfied(layouter.ops@, instance) <==> satisfied(before, instance),
            layouter.ops@ == before + all.take(2 * row),
        decreases RANGE_BITS + 1 - row,
    {
        let value = if row == 0 {
            difference
        } else if row < RANGE_BITS {
            Fe::from_u64(limb >> (row as u64))
        } else {
            Fe::zero()
        };
        proof {
            lemma_fe_of_view(value);
            let cell = Cell { region, column: column.index, offset: row };
            assert forall|i: int| 0 <= i < layouter.ops@.len() implies !is_assign(
                #[trigger] layouter.ops@[i],
                cell,
            ) by {
                if i < before.len() {
                    assert(!in_column(before[i], region, column.index));
                } else {
                    assert(layouter.ops@[i] == all[i - before.len()]);
                }
            }
        }
        match layouter.assign_advice(Gadget::Range, region, column, row, value) {
            Ok(_) => {},
            Err(e) => return Err(e),
        }
        let selector = if row < RANGE_BITS {
            config.bit_selector
        } else {
            config.end_selector
        };
        layouter.enable_selector(selector, region, row);
        proof {
            assert(all.take(2 * (row + 1)) =~= all.take(2 * row).push(all[2 * row]).push(
                all[2 * row + 1],
            ));
        }
        row = row + 1;
    }
    proof {
        assert(all.take(2 * (RANGE_BITS + 1)) =~= all);
    }
    Ok(())
}

/// The range assertion chip.
#[derive(Clone, Copy, Debug, PartialEq, Eq, Structural)]
pub struct RangeCheckChip {
    pub config: RangeCheckConfig,
}

impl RangeCheckChip {
    /// The chip of a configuration.
    pub fn construct(config: RangeCheckConfig) -> (chip: RangeCheckChip)
        ensures
            chip.config == config,
    {
        RangeCheckChip { config }
    }

    /// Allocates the gadget's columns and selectors and registers its gates.
    pub fn configure(meta: &mut ConstraintSystem) -> (config: RangeCheckConfig)
        ensures
            configured(*old(meta), *final(meta), config),
            config.wf(),
    {
        let value = meta.advice_column();
        let min = meta.advice_column();
        let max = meta.advice_column();
        let low = meta.advice_column();
        let high = meta.advice_column();
        let floor = meta.advice_column();
        let selector = meta.selector();
        let bit_selector = meta.selector();
        let end_selector = meta.selector();
        meta.enable_equality(value);
        meta.enable_equality(min);
        meta.enable_equality(max);

        let mut difference: Vec<Expression> = Vec::new();
        difference.push(difference_of(&low, &value, &min));
        difference.push(difference_of(&high, &max, &value));
        difference.push(minus_of(cur_cell(&floor), cur_cell(&min)));
        meta.create_gate(Gate { name: GateName::RangeDifference, selector, polys: difference });

        let mut bits: Vec<Expression> = Vec::new();
        bits.push(bit_poly_of(&low));
        bits.push(bit_poly_of(&high));
        bits.push(bit_poly_of(&floor));
        meta.create_gate(Gate { name: GateName::RangeBit, selector: bit_selector, polys: bits });

        let mut ends: Vec<Expression> = Vec::new();
        ends.push(cur_cell(&low));
        ends.push(cur_cell(&high));
        ends.push(cur_cell(&floor));
        meta.create_gate(Gate { name: GateName::RangeEnd, selector: end_selector, polys: ends });

        proof {
            crate::cs::lemma_counts_fit(meta);
        }
        RangeCheckConfig { value, min, max, low, high, floor, selector, bit_selector, end_selector }
    }

    /// Lays the assertion out in a region of its own. Value and bounds are copied
    /// in from the cells given, so that what is range-checked is what those cells
    /// hold, and the lower bound and each of the two differences head their
    /// running sums. A witness out of range is no error here; it leaves the
    /// layout unsatisfied.
    pub fn range_check(
        &self,
        layouter: &mut Layouter,
        assigned_value: &AssignedCell,
        min: &AssignedCell,
        max: &AssignedCell,
    ) -> (r: Result<(), Error>)
        requires
            old(layouter).wf(),
            self.config.wf(),
        ensures
            final(layouter).wf(),
            r is Ok,
            final(layouter).regions == old(layouter).regions + 1,
            forall|instance: Seq<nat>| #[trigger]
                satisfied(final(layouter).ops@, instance) <==> satisfied(
                    old(layouter).ops@,
                    instance,
                ) && in_range(assigned_value.value@, min.value@, max.value@),
            final(layouter).ops@ == old(layouter).ops@ + range_ops(
                self.config,
                old(layouter).regions,
                *assigned_value,
                *min,
                *max,
            ),
    {
        let ghost before = layouter.ops@;
        let config = self.config;
        let region = layouter.assign_region(RegionName::RangeCheck);
        layouter.enable_selector(config.selector, region, 0);
        proof {
            assert forall|i: int| 0 <= i < layouter.ops@.len() implies !in_region(
                #[trigger] layouter.ops@[i],
                region,
            ) by {
                if i < before.len() {
                    assert(crate::layouter::in_opened(before[i], region));
                }
            }
        }
        let value = match layouter.assign_advice(
            Gadget::Range,
            region,
            config.value,
            0,
            assigned_value.value,
        ) {
            Ok(cell) => cell,
            Err(e) => return Err(e),
        };
        layouter.constrain_equal(*assigned_value, value);
        let min_cell = match layouter.assign_advice(
            Gadget::Range,
            region,
            config.min,
            0,
            min.value,
        ) {
            Ok(cell) => cell,
            Err(e) => return Err(e),
        };
        layouter.constrain_equal(*min, min_cell);
        let max_cell = match layouter.assign_advice(
            Gadget::Range,
            region,
            config.max,
            0,
            max.value,
        ) {
            Ok(cell) => cell,
            Err(e) => return Err(e),
        };
        layouter.constrain_equal(*max, max_cell);
        let low = assigned_value.value.sub(&min.value);
        let high = max.value.sub(&assigned_value.value);
        match decompose(layouter, &config, region, config.low, low) {
            Ok(_) => {},
            Err(e) => return Err(e),
        }
        match decompose(layouter, &config, region, config.high, high) {
            Ok(_) => {},
            Err(e) => return Err(e),
        }
        match decompose(layouter, &config, region, config.floor, min.value) {
            Ok(_) => {},
            Err(e) => return Err(e),
        }
        layouter.push(Op::Range { value, min: min_cell, max: max_cell });
        Ok(())
    }
}

/// Whether `op` assigns a cell of `region`.
pub open spec fn in_region(op: Op, region: usize) -> bool {
    op matches Op::Assign { cell: c } && c.cell.region == region
}

} // verus!
