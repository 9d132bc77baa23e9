use zk_claims::cs::{Column, ColumnKind, ConstraintSystem, Selector};
use zk_claims::error::{Error, Gadget};
use zk_claims::field::Fe;
use zk_claims::layouter::{AssignedCell, Cell, Layouter, Op, RegionName};

fn advice(index: usize) -> Column {
    Column { kind: ColumnKind::Advice, index }
}

#[test]
fn columns_and_selectors_are_numbered_in_the_order_of_allocation() {
    let mut meta = ConstraintSystem::new();
    assert_eq!(meta.advice_column(), advice(0));
    assert_eq!(meta.advice_column(), advice(1));
    assert_eq!(meta.fixed_column(), Column { kind: ColumnKind::Fixed, index: 0 });
    assert_eq!(meta.instance_column(), Column { kind: ColumnKind::Instance, index: 0 });
    assert_eq!(meta.advice_column(), advice(2));
    assert_eq!(meta.selector(), Selector { index: 0 });
    assert_eq!(meta.selector(), Selector { index: 1 });
    meta.enable_equality(advice(1));
    assert_eq!(meta.advice.len(), 3);
    assert_eq!(meta.fixed.len(), 1);
    assert_eq!(meta.instance.len(), 1);
    assert_eq!(meta.selectors.len(), 2);
    assert_eq!(meta.equality, vec![advice(1)]);
    assert!(meta.gates.is_empty());
}

#[test]
fn regions_are_numbered_and_assignments_recorded_in_order() {
    let mut layouter = Layouter::new();
    assert_eq!(layouter.assign_region(RegionName::Claim), 0);
    let a = layouter.assign_advice(Gadget::Claim, 0, advice(3), 5, Fe::from_u64(8)).unwrap();
    assert_eq!(a, AssignedCell { cell: Cell { region: 0, column: 3, offset: 5 }, value: Fe::from_u64(8) });
    assert_eq!(layouter.assign_region(RegionName::RangeCheck), 1);
    layouter.enable_selector(Selector { index: 2 }, 1, 0);
    let b = layouter.assign_advice(Gadget::Range, 1, advice(3), 5, Fe::from_u64(9)).unwrap();
    layouter.constrain_equal(a, b);
    assert_eq!(layouter.regions, 2);
    assert_eq!(
        layouter.ops,
        vec![
            Op::Region { name: RegionName::Claim },
            Op::Assign { cell: a },
            Op::Region { name: RegionName::RangeCheck },
            Op::Enable { selector: Selector { index: 2 }, region: 1, offset: 0 },
            Op::Assign { cell: b },
            Op::Equal { left: a, right: b },
        ]
    );
    assert!(!layouter.is_satisfied(&vec![]));
}

#[test]
fn a_second_value_for_a_cell_is_a_collision() {
    let mut layouter = Layouter::new();
    layouter.assign_region(RegionName::Claim);
    let first = layouter.assign_advice(Gadget::Claim, 0, advice(1), 0, Fe::from_u64(8)).unwrap();
    let again = layouter.assign_advice(Gadget::Claim, 0, advice(1), 0, Fe::from_u64(8));
    assert_eq!(again, Ok(first));
    let before = layouter.ops.clone();
    let clash = layouter.assign_advice(Gadget::Range, 0, advice(1), 0, Fe::from_u64(9));
    assert_eq!(clash, Err(Error::Collision { gadget: Gadget::Range }));
    assert_eq!(clash.unwrap_err().gadget(), Gadget::Range);
    assert_eq!(layouter.ops, before);
    // Another row, another column or another region is another cell.
    assert!(layouter.assign_advice(Gadget::Claim, 0, advice(1), 1, Fe::from_u64(9)).is_ok());
    assert!(layouter.assign_advice(Gadget::Claim, 0, advice(2), 0, Fe::from_u64(9)).is_ok());
    layouter.assign_region(RegionName::RangeCheck);
    assert!(layouter.assign_advice(Gadget::Claim, 1, advice(1), 0, Fe::from_u64(9)).is_ok());
}

#[test]
fn equality_and_instance_constraints_decide_satisfaction() {
    let cell = |v: u64| AssignedCell { cell: Cell { region: 0, column: 0, offset: 0 }, value: Fe::from_u64(v) };
    let instance = Column { kind: ColumnKind::Instance, index: 0 };
    let mut layouter = Layouter::new();
    assert!(layouter.is_satisfied(&vec![]));
    layouter.constrain_equal(cell(4), cell(4));
    assert!(layouter.is_satisfied(&vec![]));
    layouter.constrain_instance(cell(6), instance, 1);
    assert!(!layouter.is_satisfied(&vec![]));
    assert!(!layouter.is_satisfied(&vec![Fe::from_u64(6)]));
    assert!(layouter.is_satisfied(&vec![Fe::from_u64(0), Fe::from_u64(6)]));
    assert!(!layouter.is_satisfied(&vec![Fe::from_u64(0), Fe::from_u64(7)]));
    layouter.constrain_equal(cell(4), cell(5));
    assert!(!layouter.is_satisfied(&vec![Fe::from_u64(0), Fe::from_u64(6)]));
}
