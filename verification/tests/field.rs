use zk_claims::curve::{Base, Point, Scalar};
use zk_claims::field::Fe;
use zk_claims::uint::U256;

fn word(l0: u64, l1: u64, l2: u64, l3: u64) -> U256 {
    U256 { l0, l1, l2, l3 }
}

fn native_order() -> U256 {
    word(0x992d30ed00000001, 0x224698fc094cf91b, 0, 0x4000000000000000)
}

fn scalar_order() -> U256 {
    word(0x43e1f593f0000001, 0x2833e84879b97091, 0xb85045b68181585d, 0x30644e72e131a029)
}

fn base_order() -> U256 {
    word(0x3c208c16d87cfd47, 0x97816a916871ca8d, 0xb85045b68181585d, 0x30644e72e131a029)
}

#[test]
fn u256_reads_little_endian_bytes() {
    let mut bytes = [0u8; 32];
    bytes[0] = 0x01;
    bytes[1] = 0x02;
    bytes[8] = 0x03;
    bytes[23] = 0x04;
    bytes[31] = 0x80;
    assert_eq!(
        U256::from_le_bytes(&bytes),
        word(0x0201, 0x03, 0x0400000000000000, 0x8000000000000000)
    );
}

#[test]
fn u256_orders_by_the_most_significant_limb_first() {
    assert!(word(u64::MAX, u64::MAX, u64::MAX, 0).lt(&word(0, 0, 0, 1)));
    assert!(!word(0, 0, 0, 1).lt(&word(u64::MAX, u64::MAX, u64::MAX, 0)));
    assert!(word(5, 1, 0, 0).lt(&word(4, 2, 0, 0)));
    assert!(word(4, 2, 0, 0).lt(&word(5, 2, 0, 0)));
    assert!(!word(5, 2, 0, 0).lt(&word(5, 2, 0, 0)));
}

#[test]
fn u256_knows_zero_and_what_fits_in_64_bits() {
    assert!(word(0, 0, 0, 0).is_zero());
    assert!(!word(0, 0, 1, 0).is_zero());
    assert!(word(u64::MAX, 0, 0, 0).fits_u64());
    assert!(!word(0, 1, 0, 0).fits_u64());
    assert_eq!(U256::from_u64(7), word(7, 0, 0, 0));
}

#[test]
fn native_elements_are_the_integers_below_the_order() {
    let order = native_order();
    assert!(Fe::from_u256(order).is_none());
    let largest = word(order.l0 - 1, order.l1, order.l2, order.l3);
    assert_eq!(Fe::from_u256(largest).unwrap().to_u256(), largest);
    assert!(Fe::from_u256(word(0, 0, 0, u64::MAX)).is_none());
    assert_eq!(Fe::from_u64(42).to_u256(), word(42, 0, 0, 0));
    assert_eq!(Fe::zero(), Fe::from_u64(0));
}

#[test]
fn native_subtraction_wraps_around_the_order() {
    assert_eq!(Fe::from_u64(5).sub(&Fe::from_u64(3)), Fe::from_u64(2));
    assert_eq!(Fe::from_u64(5).sub(&Fe::from_u64(5)), Fe::zero());
    let order = native_order();
    let minus_two = word(order.l0 - 2, order.l1, order.l2, order.l3);
    assert_eq!(Fe::from_u64(3).sub(&Fe::from_u64(5)).to_u256(), minus_two);
    let minus_one = Fe::zero().sub(&Fe::from_u64(1));
    assert_eq!(minus_one.sub(&minus_one), Fe::zero());
    assert_eq!(Fe::zero().sub(&minus_one), Fe::from_u64(1));
}

#[test]
fn scalars_are_the_integers_below_the_group_order() {
    let order = scalar_order();
    assert!(Scalar::from_u256(order).is_none());
    let largest = word(order.l0 - 1, order.l1, order.l2, order.l3);
    assert_eq!(Scalar::from_u256(largest).unwrap().to_u256(), largest);
    assert_eq!(Scalar::from_u64(9).to_u256(), word(9, 0, 0, 0));
}

#[test]
fn scalar_multiplication_is_modular() {
    let three = Scalar::from_u64(3);
    let four = Scalar::from_u64(4);
    assert_eq!(three.mul(&four), Scalar::from_u64(12));
    let order = scalar_order();
    let minus_one = Scalar::from_u256(word(order.l0 - 1, order.l1, order.l2, order.l3)).unwrap();
    assert_eq!(minus_one.mul(&minus_one), Scalar::from_u64(1));
    let minus_two = Scalar::from_u256(word(order.l0 - 2, order.l1, order.l2, order.l3)).unwrap();
    assert_eq!(minus_one.mul(&Scalar::from_u64(2)), minus_two);
    assert_eq!(minus_two.mul(&minus_one), Scalar::from_u64(2));
}

#[test]
fn scalar_inverse_multiplies_to_one() {
    assert!(Scalar::from_u64(0).invert().is_none());
    assert_eq!(Scalar::from_u64(1).invert().unwrap(), Scalar::from_u64(1));
    let seven = Scalar::from_u64(7);
    let inverse = seven.invert().unwrap();
    assert_ne!(inverse, seven);
    assert_eq!(seven.mul(&inverse), Scalar::from_u64(1));
}

#[test]
fn reduction_takes_any_integer_into_the_scalar_field() {
    let order = scalar_order();
    assert_eq!(Scalar::reduce(&order), Scalar::from_u64(0));
    assert_eq!(
        Scalar::reduce(&word(order.l0 + 5, order.l1, order.l2, order.l3)),
        Scalar::from_u64(5)
    );
    assert_eq!(Scalar::reduce(&word(11, 0, 0, 0)), Scalar::from_u64(11));
    // The base field's order is the group's order plus this much.
    assert_eq!(
        Scalar::reduce(&base_order()).to_u256(),
        word(0xf83e9682e87cfd46, 0x6f4d8248eeb859fb, 0, 0)
    );
}

#[test]
fn native_elements_convert_only_where_they_fit() {
    let order = scalar_order();
    let fits = Fe::from_u256(word(order.l0 - 1, order.l1, order.l2, order.l3)).unwrap();
    assert_eq!(Scalar::from_fe(&fits).unwrap().to_u256(), fits.to_u256());
    let too_large = Fe::from_u256(order).unwrap();
    assert!(Scalar::from_fe(&too_large).is_none());
    let order = base_order();
    let fits = Fe::from_u256(word(order.l0 - 1, order.l1, order.l2, order.l3)).unwrap();
    assert_eq!(Base::from_fe(&fits).unwrap().to_u256(), fits.to_u256());
    assert!(Base::from_fe(&Fe::from_u256(order).unwrap()).is_none());
    assert!(Base::from_u256(order).is_none());
}

#[test]
fn the_generator_is_on_the_curve_and_its_neighbours_are_not() {
    let generator = Point::generator();
    assert_eq!(generator.x, Base::from_u64(1));
    assert_eq!(generator.y, Base::from_u64(2));
    assert!(generator.is_on_curve());
    assert!(!generator.is_identity());
    let off = Point { x: Base::from_u64(1), y: Base::from_u64(3) };
    assert!(!off.is_on_curve());
    let identity = Point { x: Base::from_u64(0), y: Base::from_u64(0) };
    assert!(identity.is_identity());
    assert!(!identity.is_on_curve());
}

#[test]
fn doubling_the_generator_gives_the_known_point() {
    let generator = Point::generator();
    let doubled = generator.mul(&Scalar::from_u64(2));
    assert_eq!(
        doubled.x.to_u256(),
        word(0xd3c208c16d87cfd3, 0xd97816a916871ca8, 0x9b85045b68181585, 0x030644e72e131a02)
    );
    assert_eq!(
        doubled.y.to_u256(),
        word(0xff3ebf7a5a18a2c4, 0x68a6a449e3538fc7, 0xe7845f96b2ae9c0a, 0x15ed738c0e0a7c92)
    );
    assert!(doubled.is_on_curve());
    assert_eq!(generator.add(&generator), doubled);
    assert_eq!(generator.mul(&Scalar::from_u64(1)), generator);
    assert_eq!(doubled.add(&generator), generator.mul(&Scalar::from_u64(3)));
}

#[test]
fn the_group_order_times_any_point_is_the_identity() {
    let generator = Point::generator();
    assert!(generator.mul(&Scalar::from_u64(0)).is_identity());
    let order = scalar_order();
    let minus_one = Scalar::from_u256(word(order.l0 - 1, order.l1, order.l2, order.l3)).unwrap();
    let negated = generator.mul(&minus_one);
    assert_eq!(negated.x, generator.x);
    assert_ne!(negated.y, generator.y);
    assert!(negated.add(&generator).is_identity());
    let identity = Point { x: Base::from_u64(0), y: Base::from_u64(0) };
    assert_eq!(identity.add(&generator), generator);
}
