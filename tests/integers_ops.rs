use algebra_kernel::{
    extended_gcd, AdditiveGroup, Domain, EuclideanDomain, IntegralDomain, QuotientRing,
    UnitaryRing, I32,
};

#[test]
fn balanced_quo_rem() {
    assert_eq!(I32.quo_rem(&7, &3), (2, 1));
    assert_eq!(I32.quo_rem(&8, &3), (3, -1));
    assert_eq!(I32.quo_rem(&-7, &3), (-2, -1));
    assert_eq!(I32.quo_rem(&7, &-3), (-2, 1));
    assert_eq!(I32.quo_rem(&5, &2), (2, 1));
    assert_eq!(I32.quo_rem(&5, &0), (0, 5));
    assert_eq!(I32.quo_rem(&i32::MIN, &1), (i32::MIN, 0));
    assert!(I32.is_reduced(&792, &1584));
    assert!(!I32.is_reduced(&-792, &1584));
}

#[test]
fn integer_division_and_units() {
    assert_eq!(I32.try_div(&12, &4), Some(3));
    assert_eq!(I32.try_div(&12, &5), None);
    assert_eq!(I32.try_div(&0, &0), Some(0));
    assert_eq!(I32.try_inv(&-1), Some(-1));
    assert_eq!(I32.try_inv(&2), None);
    assert_eq!(I32.associate_repr(&-6), (6, -1));
    assert_eq!(I32.add(&i32::MAX, &1), i32::MIN);
    assert_eq!(I32.mul(&-4, &5), -20);
    assert_eq!(I32.neg(&5), -5);
}

#[test]
fn gcd_coefficients() {
    let (g, x, y) = extended_gcd(&I32, &240, &46);
    assert_eq!(g.abs(), 2);
    assert_eq!(240 * x + 46 * y, g);
}

#[test]
fn quotient_ring_ops() {
    let ring = QuotientRing::new(I32, 10);
    assert_eq!(*ring.modulo(), 10);
    assert!(ring.base().contains(&10));
    assert_eq!(ring.add(&4, &3), -3);
    assert_eq!(ring.mul(&4, &4), -4);
    assert_eq!(ring.neg(&5), 5);
    assert_eq!(ring.try_inv(&3).map(|b| ring.mul(&3, &b)), Some(1));
    assert_eq!(ring.try_inv(&4), None);
    assert!(ring.equals(&3, &3));
    assert!(!ring.contains(&6));
}
