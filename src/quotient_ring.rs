//! Quotient rings and fields of a Euclidean domain by the ideal that one of
//! its members generates. A residue class is held by its remainder.
use vstd::prelude::*;
use crate::traits::{
    AdditiveGroup, Domain, EuclideanDomain, Field, IntegralDomain, UnitaryRing, extended_gcd,
    gcd_model, rem,
};

verus! {

/// The quotient of the Euclidean domain `R` by a modulus.
pub struct QuotientRing<R: EuclideanDomain> {
    base: R,
    modulo: R::Elem,
}

/// The conditions on a base domain and a modulus under which the quotient
/// can be built: the modulus is a member.
pub open spec fn quotient_ok<R: EuclideanDomain>(base: R, m: R::Model) -> bool {
    base.wf() && base.valid(m)
}

impl<R: EuclideanDomain> QuotientRing<R> {
    /// The base domain.
    pub closed spec fn base_ring(&self) -> R {
        self.base
    }

    /// The model of the modulus.
    pub closed spec fn modulus(&self) -> R::Model {
        self.base.model(self.modulo)
    }

    /// Creates the quotient of `base` by `modulo`.
    pub fn new(base: R, modulo: R::Elem) -> (r: Self)
        requires
            quotient_ok(base, base.model(modulo)),
        ensures
            r.base_ring() == base,
            r.modulus() == base.model(modulo),
            r.wf(),
    {
        QuotientRing { base, modulo }
    }

    /// Returns the base domain from which this ring was constructed.
    pub fn base(&self) -> (r: &R)
        ensures
            *r == self.base_ring(),
    {
        &self.base
    }

    /// The inverse that `try_inv` finds, or zero where there is none.
    pub open spec fn recip_or_zero(&self, a: R::Model) -> R::Model {
        match self.inv_model(a) {
            Some(x) => x,
            None => self.zero_model(),
        }
    }

    /// Returns the modulus from which this ring was constructed.
    pub fn modulo(&self) -> (r: &R::Elem)
        ensures
            self.base_ring().model(*r) == self.modulus(),
    {
        &self.modulo
    }

    /// The remainder of a member of the base domain.
    fn reduce(&self, e: &R::Elem) -> (r: R::Elem)
        requires
            self.wf(),
            self.base_ring().valid(self.base_ring().model(*e)),
        ensures
            self.valid(self.model(r)),
            self.model(r) == self.base_ring().rem_model(self.base_ring().model(*e), self.modulus()),
    {
        rem(&self.base, e, &self.modulo)
    }
}

impl<R: EuclideanDomain> Domain for QuotientRing<R> {
    type Elem = R::Elem;

    type Model = R::Model;

    open spec fn wf(&self) -> bool {
        quotient_ok(self.base_ring(), self.modulus())
    }

    open spec fn model(&self, e: R::Elem) -> R::Model {
        self.base_ring().model(e)
    }

    open spec fn valid(&self, m: R::Model) -> bool {
        self.base_ring().valid(m) && self.base_ring().reduced(m, self.modulus())
    }

    fn contains(&self, e: &R::Elem) -> (r: bool) {
        self.base.contains(e) && self.base.is_reduced(e, &self.modulo)
    }

    fn equals(&self, a: &R::Elem, b: &R::Elem) -> (r: bool) {
        self.base.equals(a, b)
    }

    fn clone_elem(&self, e: &R::Elem) -> (r: R::Elem) {
        self.base.clone_elem(e)
    }
}

impl<R: EuclideanDomain> AdditiveGroup for QuotientRing<R> {
    open spec fn zero_model(&self) -> R::Model {
        self.base_ring().zero_model()
    }

    open spec fn neg_model(&self, a: R::Model) -> R::Model {
        self.base_ring().rem_model(self.base_ring().neg_model(a), self.modulus())
    }

    open spec fn add_model(&self, a: R::Model, b: R::Model) -> R::Model {
        self.base_ring().rem_model(self.base_ring().add_model(a, b), self.modulus())
    }

    fn zero(&self) -> (r: R::Elem) {
        let z = self.base.zero();
        proof {
            self.base.lemma_zero_reduced(self.modulus());
        }
        z
    }

    fn is_zero(&self, e: &R::Elem) -> (r: bool) {
        self.base.is_zero(e)
    }

    fn neg(&self, e: &R::Elem) -> (r: R::Elem) {
        self.reduce(&self.base.neg(e))
    }

    fn add(&self, a: &R::Elem, b: &R::Elem) -> (r: R::Elem) {
        self.reduce(&self.base.add(a, b))
    }
}

impl<R: EuclideanDomain> UnitaryRing for QuotientRing<R> {
    open spec fn one_model(&self) -> R::Model {
        self.base_ring().rem_model(self.base_ring().one_model(), self.modulus())
    }

    open spec fn mul_model(&self, a: R::Model, b: R::Model) -> R::Model {
        self.base_ring().rem_model(self.base_ring().mul_model(a, b), self.modulus())
    }

    /// With `g = modulo * s + a * t` from the extended Euclidean algorithm, a
    /// unit `g` makes `t / g` the inverse of `a`.
    open spec fn inv_model(&self, a: R::Model) -> Option<R::Model> {
        let (g, s, t) = gcd_model(self.base_ring(), self.modulus(), a);
        if g == self.base_ring().zero_model() {
            None
        } else {
            match self.base_ring().inv_model(g) {
                Some(x) => Some(
                    self.base_ring().rem_model(self.base_ring().mul_model(x, t), self.modulus()),
                ),
                None => None,
            }
        }
    }

    fn one(&self) -> (r: R::Elem) {
        self.reduce(&self.base.one())
    }

    fn is_one(&self, e: &R::Elem) -> (r: bool) {
        let o = self.one();
        self.base.equals(e, &o)
    }

    fn mul(&self, a: &R::Elem, b: &R::Elem) -> (r: R::Elem) {
        self.reduce(&self.base.mul(a, b))
    }

    fn try_inv(&self, e: &R::Elem) -> (r: Option<R::Elem>) {
        let (g, _, t) = extended_gcd(&self.base, &self.modulo, e);
        if self.base.is_zero(&g) {
            return None;
        }
        match self.base.try_inv(&g) {
            None => None,
            Some(a) => Some(self.reduce(&self.base.mul(&a, &t))),
        }
    }
}

/// The quotient of the Euclidean domain `R` by a modulus that makes it a
/// field, such as a prime number or an irreducible polynomial.
pub struct QuotientField<R: EuclideanDomain> {
    ring: QuotientRing<R>,
}

/// The conditions of `quotient_ok`, and one differs from zero in the
/// quotient, as in every field.
pub open spec fn field_ok<R: EuclideanDomain>(base: R, m: R::Model) -> bool {
    quotient_ok(base, m) && base.rem_model(base.one_model(), m) != base.zero_model()
}

impl<R: EuclideanDomain> QuotientField<R> {
    /// The quotient ring underneath.
    pub closed spec fn quotient(&self) -> QuotientRing<R> {
        self.ring
    }

    /// Creates the quotient field of `base` by `modulo`.
    pub fn new(base: R, modulo: R::Elem) -> (r: Self)
        requires
            field_ok(base, base.model(modulo)),
        ensures
            r.quotient().base_ring() == base,
            r.quotient().modulus() == base.model(modulo),
            r.wf(),
    {
        QuotientField { ring: QuotientRing::new(base, modulo) }
    }

    /// Returns the base domain from which this field was constructed.
    pub fn base(&self) -> (r: &R)
        ensures
            *r == self.quotient().base_ring(),
    {
        self.ring.base()
    }

    /// Returns the modulus from which this field was constructed.
    pub fn modulo(&self) -> (r: &R::Elem)
        ensures
            self.quotient().base_ring().model(*r) == self.quotient().modulus(),
    {
        self.ring.modulo()
    }
}

impl<R: EuclideanDomain> Domain for QuotientField<R> {
    type Elem = R::Elem;

    type Model = R::Model;

    open spec fn wf(&self) -> bool {
        field_ok(self.quotient().base_ring(), self.quotient().modulus())
    }

    open spec fn model(&self, e: R::Elem) -> R::Model {
        self.quotient().model(e)
    }

    open spec fn valid(&self, m: R::Model) -> bool {
        self.quotient().valid(m)
    }

    fn contains(&self, e: &R::Elem) -> (r: bool) {
        self.ring.contains(e)
    }

    fn equals(&self, a: &R::Elem, b: &R::Elem) -> (r: bool) {
        self.ring.equals(a, b)
    }

    fn clone_elem(&self, e: &R::Elem) -> (r: R::Elem) {
        self.ring.clone_elem(e)
    }
}

impl<R: EuclideanDomain> AdditiveGroup for QuotientField<R> {
    open spec fn zero_model(&self) -> R::Model {
        self.quotient().zero_model()
    }

    open spec fn neg_model(&self, a: R::Model) -> R::Model {
        self.quotient().neg_model(a)
    }

    open spec fn add_model(&self, a: R::Model, b: R::Model) -> R::Model {
        self.quotient().add_model(a, b)
    }

    fn zero(&self) -> (r: R::Elem) {
        self.ring.zero()
    }

    fn is_zero(&self, e: &R::Elem) -> (r: bool) {
        self.ring.is_zero(e)
    }

    fn neg(&self, e: &R::Elem) -> (r: R::Elem) {
        self.ring.neg(e)
    }

    fn add(&self, a: &R::Elem, b: &R::Elem) -> (r: R::Elem) {
        self.ring.add(a, b)
    }
}

impl<R: EuclideanDomain> UnitaryRing for QuotientField<R> {
    open spec fn one_model(&self) -> R::Model {
        self.quotient().one_model()
    }

    open spec fn mul_model(&self, a: R::Model, b: R::Model) -> R::Model {
        self.quotient().mul_model(a, b)
    }

    open spec fn inv_model(&self, a: R::Model) -> Option<R::Model> {
        self.quotient().inv_model(a)
    }

    fn one(&self) -> (r: R::Elem) {
        self.ring.one()
    }

    fn is_one(&self, e: &R::Elem) -> (r: bool) {
        self.ring.is_one(e)
    }

    fn mul(&self, a: &R::Elem, b: &R::Elem) -> (r: R::Elem) {
        self.ring.mul(a, b)
    }

    fn try_inv(&self, e: &R::Elem) -> (r: Option<R::Elem>) {
        self.ring.try_inv(e)
    }
}

impl<R: EuclideanDomain> IntegralDomain for QuotientField<R> {
    open spec fn try_div_model(&self, a: R::Model, b: R::Model) -> Option<R::Model> {
        if b == self.zero_model() {
            if a == self.zero_model() {
                Some(self.zero_model())
            } else {
                None
            }
        } else {
            Some(self.quotient().mul_model(a, self.quotient().recip_or_zero(b)))
        }
    }

    open spec fn assoc_model(&self, a: R::Model) -> (R::Model, R::Model) {
        if a == self.zero_model() {
            (self.zero_model(), self.one_model())
        } else {
            (self.one_model(), a)
        }
    }

    fn try_div(&self, a: &R::Elem, b: &R::Elem) -> (r: Option<R::Elem>)
        ensures
            self.model(*b) != self.zero_model() ==> (r matches Some(q) && self.model(q)
                == self.div_model(self.model(*a), self.model(*b))),
    {
        if self.is_zero(b) {
            if self.is_zero(a) {
                Some(self.zero())
            } else {
                None
            }
        } else {
            Some(self.div(a, b))
        }
    }

    fn associate_repr(&self, e: &R::Elem) -> (r: (R::Elem, R::Elem))
        ensures
            self.model(*e) == self.zero_model() ==> self.model(r.0) == self.zero_model()
                && self.model(r.1) == self.one_model(),
            self.model(*e) != self.zero_model() ==> self.model(r.0) == self.one_model()
                && self.model(r.1) == self.model(*e),
    {
        if self.is_zero(e) {
            (self.zero(), self.one())
        } else {
            (self.one(), self.clone_elem(e))
        }
    }
}

impl<R: EuclideanDomain> Field for QuotientField<R> {
    /// A member that shares a factor with the modulus has no inverse; that
    /// happens only where the modulus is not prime, and zero stands for it.
    open spec fn recip_model(&self, a: R::Model) -> R::Model {
        self.quotient().recip_or_zero(a)
    }

    open spec fn div_model(&self, a: R::Model, b: R::Model) -> R::Model {
        self.quotient().mul_model(a, self.quotient().recip_or_zero(b))
    }

    fn inv(&self, e: &R::Elem) -> (r: R::Elem) {
        match self.ring.try_inv(e) {
            Some(x) => x,
            None => self.zero(),
        }
    }

    fn div(&self, a: &R::Elem, b: &R::Elem) -> (r: R::Elem) {
        let x = self.inv(b);
        self.mul(a, &x)
    }
}

} // verus!
