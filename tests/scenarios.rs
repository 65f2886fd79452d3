use algebra_kernel::{
    AdditiveGroup, Domain, EuclideanDomain, Field, IntegralDomain, Polynomials, QuotientField,
    QuotientRing, UnitaryRing, I32,
};

#[test]
fn field_256() {
    let field1 = QuotientField::new(I32, 2);
    let ring2 = Polynomials::new(field1);

    // the irreducible polynomial 1 + x + x^3 + x^4 + x^8
    let poly = vec![1, 1, 0, 1, 1, 0, 0, 0, 1];
    assert!(ring2.contains(&poly));
    assert_eq!(ring2.degree(&poly), Some(8));
    let field2 = QuotientField::new(ring2, poly);

    // 1 + x, primitive element, generate all 256 elements
    let gen = vec![1, 1];
    let mut elems = Vec::new();
    elems.push(field2.zero());
    elems.push(field2.one());
    let mut elem = gen.clone();
    while !field2.is_one(&elem) {
        elems.push(elem.clone());
        elem = field2.mul(&elem, &gen);
    }
    assert_eq!(elems.len(), 256);

    for a in elems {
        if !field2.is_zero(&a) {
            let b = field2.inv(&a);
            assert_eq!(field2.mul(&a, &b), field2.one())
        }
    }
}

#[test]
fn zstar_1584() {
    let ring = QuotientRing::new(I32, 1584); // 16 * 9 *11

    let mut count = 0;
    for a in -791..792 {
        assert!(ring.contains(&a));
        if a != 0 {
            if let Some(b) = ring.try_inv(&a) {
                assert!(ring.contains(&b));
                assert!(ring.is_one(&ring.mul(&a, &b)));
                count += 1;
            }
        }
    }
    assert_eq!(count, 8 * 6 * 10);
}

#[test]
fn field_256_elements_are_distinct() {
    let ring2 = Polynomials::new(QuotientField::new(I32, 2));
    let poly = vec![1, 1, 0, 1, 1, 0, 0, 0, 1];
    let field2 = QuotientField::new(ring2, poly);
    let gen = vec![1, 1];
    let mut seen: Vec<Vec<i32>> = vec![field2.one()];
    let mut elem = gen.clone();
    while !field2.is_one(&elem) {
        assert!(field2.contains(&elem));
        assert!(!seen.contains(&elem));
        seen.push(elem.clone());
        elem = field2.mul(&elem, &gen);
    }
    assert_eq!(seen.len(), 255);
}
