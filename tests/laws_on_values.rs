use algebra_kernel::{
    AdditiveGroup, Domain, EuclideanDomain, Field, IntegralDomain, Polynomials, QuotientField,
    QuotientRing, UnitaryRing, I32,
};

#[test]
fn integer_ring_identities() {
    let (a, b, c) = (17, -40, 1_000_003);
    assert_eq!(I32.add(&a, &b), I32.add(&b, &a));
    assert_eq!(I32.add(&I32.add(&a, &b), &c), I32.add(&a, &I32.add(&b, &c)));
    assert_eq!(I32.mul(&a, &b), I32.mul(&b, &a));
    assert_eq!(I32.mul(&I32.mul(&a, &b), &c), I32.mul(&a, &I32.mul(&b, &c)));
    assert_eq!(I32.add(&a, &I32.neg(&a)), I32.zero());
    assert_eq!(I32.mul(&a, &I32.one()), a);
}

#[test]
fn polynomial_ring_identities() {
    let r = Polynomials::new(QuotientField::new(I32, 5));
    let a = vec![1, -2, 0, 2];
    let b = vec![2, 2];
    let c = vec![0, 0, -1];
    assert_eq!(r.add(&a, &b), r.add(&b, &a));
    assert_eq!(r.add(&r.add(&a, &b), &c), r.add(&a, &r.add(&b, &c)));
    assert_eq!(r.mul(&a, &b), r.mul(&b, &a));
    assert_eq!(r.mul(&r.mul(&a, &b), &c), r.mul(&a, &r.mul(&b, &c)));
    assert!(r.is_zero(&r.add(&a, &r.neg(&a))));
    assert_eq!(r.mul(&a, &r.one()), a);
}

#[test]
fn quotient_ring_identities() {
    let q = QuotientRing::new(I32, 12);
    let (a, b, c) = (5, -4, 6);
    assert_eq!(q.add(&a, &b), q.add(&b, &a));
    assert_eq!(q.add(&q.add(&a, &b), &c), q.add(&a, &q.add(&b, &c)));
    assert_eq!(q.mul(&a, &b), q.mul(&b, &a));
    assert_eq!(q.mul(&q.mul(&a, &b), &c), q.mul(&a, &q.mul(&b, &c)));
    assert_eq!(q.add(&a, &q.neg(&a)), q.zero());
    assert_eq!(q.mul(&a, &q.one()), a);
}

#[test]
fn division_law_on_values() {
    let r = Polynomials::new(QuotientField::new(I32, 7));
    let a = vec![3, 1, -3, 1, -2];
    let b = vec![2, 0, 1];
    let (q, m) = r.quo_rem(&a, &b);
    assert_eq!(r.add(&r.mul(&q, &b), &m), a);
    assert!(m.len() < b.len());
    let (q, m) = I32.quo_rem(&-100, &7);
    assert_eq!(q * 7 + m, -100);
    assert!(m.abs() * 2 <= 7);
}

#[test]
fn exact_division_round_trip() {
    let r = Polynomials::new(QuotientField::new(I32, 7));
    let a = vec![3, 1, -3, 1, -2];
    let b = vec![2, 0, 1];
    assert_eq!(r.try_div(&r.mul(&a, &b), &b), Some(a));
    assert_eq!(I32.try_div(&I32.mul(&-9, &13), &13), Some(-9));
    assert_eq!(I32.try_div(&I32.mul(&9, &-13), &-13), Some(9));
}

#[test]
fn constructed_polynomials_are_normalized() {
    let r = Polynomials::new(QuotientField::new(I32, 3));
    let a = vec![1, 1, 1];
    let b = vec![0, -1, -1];
    let s = r.add(&a, &b);
    assert_eq!(s, vec![1]);
    let p = r.mul(&vec![1, 1], &vec![-1, 1]);
    assert_eq!(p, vec![-1, 0, 1]);
    for v in [s, p, r.neg(&a)] {
        assert!(v.is_empty() || *v.last().unwrap() != 0);
    }
    assert!(r.equals(&vec![1, 0, 1], &vec![1, 0, 1]));
    assert!(!r.equals(&vec![1, 0, 1], &vec![1, 1, 1]));
}

#[test]
fn field_inverse_of_every_residue() {
    let f = QuotientField::new(I32, 13);
    for a in -6..7 {
        if a != 0 {
            assert_eq!(f.mul(&a, &f.inv(&a)), f.one());
            assert_eq!(f.div(&a, &a), f.one());
        }
    }
    assert_eq!(f.try_div(&1, &0), None);
    assert_eq!(f.try_div(&0, &0), Some(0));
    assert_eq!(f.associate_repr(&5), (1, 5));
}
