use zk_claims::cs::{Column, ColumnKind, ConstraintSystem, Expression, GateName, Selector};
use zk_claims::field::Fe;
use zk_claims::gadgets::range_check::{range_holds, RangeCheckChip, RangeCheckConfig, RANGE_BITS};
use zk_claims::layouter::{AssignedCell, Cell, Layouter, Op, RegionName};
use zk_claims::uint::U256;

fn advice(index: usize) -> Column {
    Column { kind: ColumnKind::Advice, index }
}

fn cell(column: usize, value: Fe) -> AssignedCell {
    AssignedCell { cell: Cell { region: 0, column, offset: 0 }, value }
}

fn minus(a: Expression, b: Expression) -> Expression {
    Expression::Sum(Box::new(a), Box::new(Expression::Negated(Box::new(b))))
}

fn cur(column: usize) -> Expression {
    Expression::Advice { column, rotation: 0 }
}

fn shed_bit(column: usize) -> Expression {
    minus(
        cur(column),
        Expression::Product(
            Box::new(Expression::Constant(2)),
            Box::new(Expression::Advice { column, rotation: 1 }),
        ),
    )
}

fn bit_poly(column: usize) -> Expression {
    Expression::Product(
        Box::new(shed_bit(column)),
        Box::new(minus(Expression::Constant(1), shed_bit(column))),
    )
}

/// Lays a range assertion out on cells of a region of their own and says whether
/// the layout is satisfied.
fn asserted(value: Fe, min: Fe, max: Fe) -> bool {
    let mut meta = ConstraintSystem::new();
    let chip = RangeCheckChip::construct(RangeCheckChip::configure(&mut meta));
    let mut layouter = Layouter::new();
    layouter.assign_region(RegionName::Claim);
    chip.range_check(&mut layouter, &cell(0, value), &cell(1, min), &cell(2, max)).unwrap();
    let satisfied = layouter.is_satisfied(&vec![]);
    assert_eq!(satisfied, range_holds(&value, &min, &max));
    satisfied
}

#[test]
fn the_value_may_sit_on_either_bound_or_between() {
    let f = Fe::from_u64;
    assert!(asserted(f(0), f(0), f(100)));
    assert!(asserted(f(100), f(0), f(100)));
    assert!(asserted(f(42), f(0), f(100)));
    assert!(asserted(f(18), f(18), f(18)));
    assert!(asserted(f(u64::MAX), f(0), f(u64::MAX)));
    assert!(asserted(f(1), f(1), f(u64::MAX)));
}

#[test]
fn one_unit_outside_either_bound_is_rejected() {
    let f = Fe::from_u64;
    assert!(!asserted(f(101), f(0), f(100)));
    assert!(!asserted(f(9), f(10), f(100)));
    assert!(!asserted(f(19), f(18), f(18)));
    assert!(!asserted(f(17), f(18), f(18)));
    // Below a lower bound of zero lies the field's largest element.
    assert!(!asserted(Fe::zero().sub(&f(1)), f(0), f(100)));
}

#[test]
fn the_gadget_does_not_force_value_and_bounds_to_coincide() {
    let f = Fe::from_u64;
    assert!(range_holds(&f(42), &f(0), &f(100)));
    assert!(range_holds(&f(42), &f(42), &f(43)));
    assert!(range_holds(&f(43), &f(42), &f(43)));
    assert!(!range_holds(&f(44), &f(42), &f(43)));
}

#[test]
fn bounds_that_wrap_around_the_order_of_the_field_are_rejected() {
    let f = Fe::from_u64;
    let largest = Fe::zero().sub(&f(1));
    // From the largest element up to five, the field's way round, lies two.
    assert!(!range_holds(&f(2), &largest, &f(5)));
    assert!(!asserted(f(2), largest, f(5)));
    assert!(!range_holds(&largest, &largest, &f(5)));
    assert!(!range_holds(&largest, &largest, &largest));
    let two_to_64 = Fe::from_u256(U256 { l0: 0, l1: 1, l2: 0, l3: 0 }).unwrap();
    assert!(!range_holds(&two_to_64, &two_to_64, &two_to_64));
    assert!(range_holds(&f(u64::MAX), &f(u64::MAX), &f(u64::MAX)));
}

#[test]
fn differences_must_fit_in_the_decomposed_bits() {
    let f = Fe::from_u64;
    let two_to_64 = Fe::from_u256(U256 { l0: 0, l1: 1, l2: 0, l3: 0 }).unwrap();
    assert!(range_holds(&f(u64::MAX), &f(0), &two_to_64));
    assert!(!range_holds(&f(0), &f(0), &two_to_64));
    assert!(!range_holds(&two_to_64, &f(0), &two_to_64));
    assert!(range_holds(&two_to_64, &f(1), &two_to_64));
    assert!(!asserted(two_to_64, f(0), two_to_64));
}

#[test]
fn configure_allocates_six_columns_three_selectors_and_three_gates() {
    let mut meta = ConstraintSystem::new();
    meta.advice_column();
    meta.selector();
    let config = RangeCheckChip::configure(&mut meta);
    assert_eq!(
        config,
        RangeCheckConfig {
            value: advice(1),
            min: advice(2),
            max: advice(3),
            low: advice(4),
            high: advice(5),
            floor: advice(6),
            selector: Selector { index: 1 },
            bit_selector: Selector { index: 2 },
            end_selector: Selector { index: 3 },
        }
    );
    assert!(config.is_wf());
    assert!(!(RangeCheckConfig { floor: advice(3), ..config }).is_wf());
    assert!(!(RangeCheckConfig { end_selector: config.selector, ..config }).is_wf());
    assert_eq!(meta.advice.len(), 7);
    assert_eq!(meta.selectors.len(), 4);
    assert_eq!(meta.fixed.len(), 0);
    assert_eq!(meta.instance.len(), 0);
    assert_eq!(meta.equality, vec![advice(1), advice(2), advice(3)]);
    assert!(meta.chips.is_empty());
    assert_eq!(meta.gates.len(), 3);

    assert_eq!(meta.gates[0].name, GateName::RangeDifference);
    assert_eq!(meta.gates[0].selector, config.selector);
    assert_eq!(
        meta.gates[0].polys,
        vec![
            minus(cur(4), minus(cur(1), cur(2))),
            minus(cur(5), minus(cur(3), cur(1))),
            minus(cur(6), cur(2)),
        ]
    );
    assert_eq!(meta.gates[1].name, GateName::RangeBit);
    assert_eq!(meta.gates[1].selector, config.bit_selector);
    assert_eq!(meta.gates[1].polys, vec![bit_poly(4), bit_poly(5), bit_poly(6)]);
    assert_eq!(meta.gates[2].name, GateName::RangeEnd);
    assert_eq!(meta.gates[2].selector, config.end_selector);
    assert_eq!(meta.gates[2].polys, vec![cur(4), cur(5), cur(6)]);
}

#[test]
fn configuring_twice_gives_the_same_shape() {
    let mut first = ConstraintSystem::new();
    let mut second = ConstraintSystem::new();
    assert_eq!(RangeCheckChip::configure(&mut first), RangeCheckChip::configure(&mut second));
    assert_eq!(first, second);
    assert_eq!(first.advice, (0..6).map(advice).collect::<Vec<_>>());
    assert_eq!(first.selectors, (0..3).map(|index| Selector { index }).collect::<Vec<_>>());
}

#[test]
fn the_assertion_lays_out_value_bounds_and_the_three_running_sums() {
    let mut meta = ConstraintSystem::new();
    let config = RangeCheckChip::configure(&mut meta);
    let chip = RangeCheckChip::construct(config);
    assert_eq!(chip.config, config);
    let value = cell(7, Fe::from_u64(42));
    let min = cell(8, Fe::from_u64(2));
    let max = cell(9, Fe::from_u64(100));
    let mut layouter = Layouter::new();
    layouter.assign_region(RegionName::Claim);
    chip.range_check(&mut layouter, &value, &min, &max).unwrap();
    assert_eq!(layouter.regions, 2);

    let at = |column: Column, offset: usize, v: u64| AssignedCell {
        cell: Cell { region: 1, column: column.index, offset },
        value: Fe::from_u64(v),
    };
    let ops = &layouter.ops;
    assert_eq!(ops.len(), 1 + 8 + 3 * 2 * (RANGE_BITS + 1) + 1);
    assert_eq!(
        ops[..9],
        [
            Op::Region { name: RegionName::Claim },
            Op::Region { name: RegionName::RangeCheck },
            Op::Enable { selector: config.selector, region: 1, offset: 0 },
            Op::Assign { cell: at(config.value, 0, 42) },
            Op::Equal { left: value, right: at(config.value, 0, 42) },
            Op::Assign { cell: at(config.min, 0, 2) },
            Op::Equal { left: min, right: at(config.min, 0, 2) },
            Op::Assign { cell: at(config.max, 0, 100) },
            Op::Equal { left: max, right: at(config.max, 0, 100) },
        ]
    );
    // The running sum of 42 - 2 = 40 = 0b101000, that of 100 - 42 = 58, and
    // that of the lower bound 2.
    let low = &ops[9..9 + 2 * (RANGE_BITS + 1)];
    let high = &ops[9 + 2 * (RANGE_BITS + 1)..9 + 4 * (RANGE_BITS + 1)];
    let floor = &ops[9 + 4 * (RANGE_BITS + 1)..9 + 6 * (RANGE_BITS + 1)];
    for row in 0..=RANGE_BITS {
        let shifted = |d: u64| if row < 64 { d >> row } else { 0 };
        assert_eq!(low[2 * row], Op::Assign { cell: at(config.low, row, shifted(40)) });
        assert_eq!(high[2 * row], Op::Assign { cell: at(config.high, row, shifted(58)) });
        assert_eq!(floor[2 * row], Op::Assign { cell: at(config.floor, row, shifted(2)) });
        assert_eq!(floor[2 * row + 1], low[2 * row + 1]);
        let selector = if row < RANGE_BITS { config.bit_selector } else { config.end_selector };
        assert_eq!(low[2 * row + 1], Op::Enable { selector, region: 1, offset: row });
        assert_eq!(high[2 * row + 1], Op::Enable { selector, region: 1, offset: row });
    }
    assert_eq!(low[2 * 3], Op::Assign { cell: at(config.low, 3, 5) });
    assert_eq!(low[2 * 6], Op::Assign { cell: at(config.low, 6, 0) });
    assert_eq!(
        ops[ops.len() - 1],
        Op::Range {
            value: at(config.value, 0, 42),
            min: at(config.min, 0, 2),
            max: at(config.max, 0, 100),
        }
    );
    assert!(layouter.is_satisfied(&vec![]));
}

#[test]
fn a_difference_out_of_range_heads_its_running_sum_unreduced() {
    let mut meta = ConstraintSystem::new();
    let config = RangeCheckChip::configure(&mut meta);
    let chip = RangeCheckChip::construct(config);
    let value = cell(7, Fe::from_u64(1));
    let min = cell(8, Fe::from_u64(2));
    let max = cell(9, Fe::from_u64(3));
    let mut layouter = Layouter::new();
    layouter.assign_region(RegionName::Claim);
    chip.range_check(&mut layouter, &value, &min, &max).unwrap();
    let minus_one = Fe::zero().sub(&Fe::from_u64(1));
    let head = AssignedCell {
        cell: Cell { region: 1, column: config.low.index, offset: 0 },
        value: minus_one,
    };
    assert_eq!(layouter.ops[9], Op::Assign { cell: head });
    let second = AssignedCell {
        cell: Cell { region: 1, column: config.low.index, offset: 1 },
        value: Fe::from_u64(minus_one.to_u256().l0 >> 1),
    };
    assert_eq!(layouter.ops[11], Op::Assign { cell: second });
    assert!(!layouter.is_satisfied(&vec![]));
}
