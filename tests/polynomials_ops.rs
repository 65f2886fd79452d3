use algebra_kernel::{
    AdditiveGroup, Domain, EuclideanDomain, IntegralDomain, Polynomials, QuotientField,
    UnitaryRing, I32,
};

fn f3x() -> Polynomials<QuotientField<I32>> {
    Polynomials::new(QuotientField::new(I32, 3))
}

#[test]
fn degree_and_leading_coef() {
    let zx = Polynomials::new(QuotientField::new(I32, 7));
    assert_eq!(zx.degree(&vec![]), None);
    assert_eq!(zx.degree(&vec![3, 0, 2]), Some(2));
    assert_eq!(zx.leading_coef(&vec![]), None);
    assert_eq!(zx.leading_coef(&vec![3, 0, 2]), Some(2));
    assert!(zx.base().contains(&3));
}

#[test]
fn contains_requires_normal_form() {
    let r = f3x();
    assert!(r.contains(&vec![]));
    assert!(r.contains(&vec![1, -1]));
    assert!(!r.contains(&vec![1, 0]));
    assert!(!r.contains(&vec![2]));
}

#[test]
fn add_trims_cancelled_top() {
    let r = f3x();
    assert_eq!(r.add(&vec![1, 1], &vec![1, -1]), vec![-1]);
    assert_eq!(r.add(&vec![1, 1], &vec![-1, -1]), Vec::<i32>::new());
    assert_eq!(r.add(&vec![1], &vec![0, 0, 1]), vec![1, 0, 1]);
    assert_eq!(r.add(&vec![1, 0, 1], &vec![]), vec![1, 0, 1]);
}

#[test]
fn neg_and_add_give_zero() {
    let r = f3x();
    let a = vec![1, -1, 0, 1];
    assert!(r.is_zero(&r.add(&a, &r.neg(&a))));
    assert_eq!(r.neg(&a), vec![-1, 1, 0, -1]);
}

#[test]
fn mul_convolution() {
    let r = f3x();
    // (1 + x)(1 - x) = 1 - x^2
    assert_eq!(r.mul(&vec![1, 1], &vec![1, -1]), vec![1, 0, -1]);
    assert_eq!(r.mul(&vec![1, 1], &vec![]), Vec::<i32>::new());
    assert_eq!(r.mul(&vec![1, 1], &r.one()), vec![1, 1]);
    assert!(r.is_one(&r.one()));
}

#[test]
fn quo_rem_divides() {
    let r = f3x();
    // x^3 + 1 = (x + 1)(x^2 - x + 1)
    let (q, m) = r.quo_rem(&vec![1, 0, 0, 1], &vec![1, 1]);
    assert_eq!(q, vec![1, -1, 1]);
    assert_eq!(m, Vec::<i32>::new());
    // x^2 + 1 = x * x + 1
    let (q, m) = r.quo_rem(&vec![1, 0, 1], &vec![0, 1]);
    assert_eq!(q, vec![0, 1]);
    assert_eq!(m, vec![1]);
    let (q, m) = r.quo_rem(&vec![1, 1], &vec![]);
    assert_eq!(q, Vec::<i32>::new());
    assert_eq!(m, vec![1, 1]);
    assert!(r.is_reduced(&vec![1], &vec![0, 1]));
    assert!(!r.is_reduced(&vec![1, 1], &vec![0, 1]));
}

#[test]
fn try_div_round_trip() {
    let r = f3x();
    let a = vec![1, -1, 1];
    let b = vec![1, 1];
    let p = r.mul(&a, &b);
    assert_eq!(r.try_div(&p, &b), Some(a));
    assert_eq!(r.try_div(&vec![1, 0, 1], &vec![0, 1]), None);
    assert_eq!(r.try_div(&vec![], &vec![]), Some(vec![]));
    assert_eq!(r.try_div(&vec![1], &vec![]), None);
}

#[test]
fn associate_repr_makes_monic() {
    let r = f3x();
    let (repr, unit) = r.associate_repr(&vec![1, -1]);
    assert_eq!(repr, vec![-1, 1]);
    assert_eq!(unit, vec![-1]);
    let (repr, unit) = r.associate_repr(&vec![]);
    assert_eq!(repr, Vec::<i32>::new());
    assert_eq!(unit, vec![1]);
}

#[test]
fn integer_polynomials_associate_and_divide() {
    let zx = Polynomials::new(I32);
    let (repr, unit) = zx.associate_repr(&vec![3, -2]);
    assert_eq!(repr, vec![-3, 2]);
    assert_eq!(unit, vec![-1]);
    let (repr2, _) = zx.associate_repr(&zx.mul(&vec![3, -2], &vec![-1]));
    assert_eq!(repr2, repr);
    assert_eq!(zx.try_div(&vec![2, 4], &vec![1, 2]), Some(vec![2]));
    assert_eq!(zx.try_div(&vec![1, 3], &vec![1, 2]), None);
    assert_eq!(zx.try_div(&vec![], &vec![1, 2]), Some(vec![]));
    let p = zx.mul(&vec![1, -1, 2], &vec![3, 0, 1]);
    assert_eq!(zx.try_div(&p, &vec![3, 0, 1]), Some(vec![1, -1, 2]));
}
