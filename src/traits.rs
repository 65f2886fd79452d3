//! The capability traits: each level adds operations to the one below it.
//! Every structure maps its elements to a mathematical model, and each
//! operation is specified by what it does to the models of its arguments.
use vstd::prelude::*;

verus! {

/// A set of admissible values of type `Elem`; two members are equal when
/// their models are.
pub trait Domain: Sized {
    type Elem;

    type Model;

    /// The structure object itself is well formed.
    spec fn wf(&self) -> bool;

    /// The mathematical value that a member stands for.
    spec fn model(&self, e: Self::Elem) -> Self::Model;

    /// The model belongs to a member of this domain.
    spec fn valid(&self, m: Self::Model) -> bool;

    fn contains(&self, e: &Self::Elem) -> (r: bool)
        requires
            self.wf(),
        ensures
            r == self.valid(self.model(*e)),
    ;

    fn equals(&self, a: &Self::Elem, b: &Self::Elem) -> (r: bool)
        requires
            self.wf(),
            self.valid(self.model(*a)),
            self.valid(self.model(*b)),
        ensures
            r == (self.model(*a) == self.model(*b)),
    ;

    /// Returns a copy of a member.
    fn clone_elem(&self, e: &Self::Elem) -> (r: Self::Elem)
        requires
            self.wf(),
            self.valid(self.model(*e)),
        ensures
            self.model(r) == self.model(*e),
    ;
}

/// A commutative group written additively.
pub trait AdditiveGroup: Domain {
    spec fn zero_model(&self) -> Self::Model;

    spec fn neg_model(&self, a: Self::Model) -> Self::Model;

    spec fn add_model(&self, a: Self::Model, b: Self::Model) -> Self::Model;

    fn zero(&self) -> (r: Self::Elem)
        requires
            self.wf(),
        ensures
            self.valid(self.model(r)),
            self.model(r) == self.zero_model(),
    ;

    fn is_zero(&self, e: &Self::Elem) -> (r: bool)
        requires
            self.wf(),
            self.valid(self.model(*e)),
        ensures
            r == (self.model(*e) == self.zero_model()),
    ;

    fn neg(&self, e: &Self::Elem) -> (r: Self::Elem)
        requires
            self.wf(),
            self.valid(self.model(*e)),
        ensures
            self.valid(self.model(r)),
            self.model(r) == self.neg_model(self.model(*e)),
    ;

    fn add(&self, a: &Self::Elem, b: &Self::Elem) -> (r: Self::Elem)
        requires
            self.wf(),
            self.valid(self.model(*a)),
            self.valid(self.model(*b)),
        ensures
            self.valid(self.model(r)),
            self.model(r) == self.add_model(self.model(*a), self.model(*b)),
    ;
}

/// A ring with a multiplicative identity.
pub trait UnitaryRing: AdditiveGroup {
    spec fn one_model(&self) -> Self::Model;

    spec fn mul_model(&self, a: Self::Model, b: Self::Model) -> Self::Model;

    /// The inverse that `try_inv` finds, if any.
    spec fn inv_model(&self, a: Self::Model) -> Option<Self::Model>;

    fn one(&self) -> (r: Self::Elem)
        requires
            self.wf(),
        ensures
            self.valid(self.model(r)),
            self.model(r) == self.one_model(),
    ;

    fn is_one(&self, e: &Self::Elem) -> (r: bool)
        requires
            self.wf(),
            self.valid(self.model(*e)),
        ensures
            r == (self.model(*e) == self.one_model()),
    ;

    fn mul(&self, a: &Self::Elem, b: &Self::Elem) -> (r: Self::Elem)
        requires
            self.wf(),
            self.valid(self.model(*a)),
            self.valid(self.model(*b)),
        ensures
            self.valid(self.model(r)),
            self.model(r) == self.mul_model(self.model(*a), self.model(*b)),
    ;

    /// Returns the multiplicative inverse of a non-zero member, if it has one.
    fn try_inv(&self, e: &Self::Elem) -> (r: Option<Self::Elem>)
        requires
            self.wf(),
            self.valid(self.model(*e)),
            self.model(*e) != self.zero_model(),
        ensures
            r is Some <==> self.inv_model(self.model(*e)) is Some,
            r matches Some(x) ==> self.valid(self.model(x)) && Some(self.model(x))
                == self.inv_model(self.model(*e)),
    ;
}

/// A commutative ring without zero divisors.
pub trait IntegralDomain: UnitaryRing {
    /// The exact quotient that `try_div` finds, if any.
    spec fn try_div_model(&self, a: Self::Model, b: Self::Model) -> Option<Self::Model>;

    /// The canonical associate and the unit that `associate_repr` returns.
    spec fn assoc_model(&self, a: Self::Model) -> (Self::Model, Self::Model);

    /// Returns the exact quotient of `a` by `b`, if there is one.
    fn try_div(&self, a: &Self::Elem, b: &Self::Elem) -> (r: Option<Self::Elem>)
        requires
            self.wf(),
            self.valid(self.model(*a)),
            self.valid(self.model(*b)),
        ensures
            r is Some <==> self.try_div_model(self.model(*a), self.model(*b)) is Some,
            r matches Some(q) ==> Some(self.model(q)) == self.try_div_model(
                self.model(*a),
                self.model(*b),
            ),
            r matches Some(q) ==> self.valid(self.model(q)),
            self.model(*b) == self.zero_model() ==> (r is Some <==> self.model(*a)
                == self.zero_model()),
            r matches Some(q) ==> self.model(*b) == self.zero_model() ==> self.model(q)
                == self.zero_model(),
    ;

    /// Returns a canonical associate of `e` and the unit relating the two.
    fn associate_repr(&self, e: &Self::Elem) -> (r: (Self::Elem, Self::Elem))
        requires
            self.wf(),
            self.valid(self.model(*e)),
        ensures
            (self.model(r.0), self.model(r.1)) == self.assoc_model(self.model(*e)),
            self.valid(self.model(r.0)),
            self.valid(self.model(r.1)),
            self.model(*e) != self.zero_model() ==> self.model(r.0) != self.zero_model()
                && self.model(r.1) != self.zero_model(),
    ;
}

/// An integral domain with division with remainder.
pub trait EuclideanDomain: IntegralDomain {
    /// The Euclidean measure of a member.
    spec fn size(&self, m: Self::Model) -> nat;

    /// `e` is a possible remainder of a division by `m`.
    spec fn reduced(&self, e: Self::Model, m: Self::Model) -> bool;

    spec fn quo_model(&self, a: Self::Model, b: Self::Model) -> Self::Model;

    spec fn rem_model(&self, a: Self::Model, b: Self::Model) -> Self::Model;

    /// Zero is a remainder modulo every member.
    proof fn lemma_zero_reduced(&self, m: Self::Model)
        requires
            self.wf(),
            self.valid(m),
        ensures
            self.reduced(self.zero_model(), m),
    ;

    /// Divides `a` by `b`, returning the quotient and the remainder. Division
    /// by zero gives zero and `a` itself.
    fn quo_rem(&self, a: &Self::Elem, b: &Self::Elem) -> (r: (Self::Elem, Self::Elem))
        requires
            self.wf(),
            self.valid(self.model(*a)),
            self.valid(self.model(*b)),
        ensures
            self.valid(self.model(r.0)),
            self.valid(self.model(r.1)),
            self.model(r.0) == self.quo_model(self.model(*a), self.model(*b)),
            self.model(r.1) == self.rem_model(self.model(*a), self.model(*b)),
            self.reduced(self.model(r.1), self.model(*b)),
            self.model(*b) != self.zero_model() ==> self.size(self.model(r.1)) < self.size(
                self.model(*b),
            ),
            self.model(*b) == self.zero_model() ==> self.model(r.0) == self.zero_model()
                && self.model(r.1) == self.model(*a),
    ;

    fn is_reduced(&self, e: &Self::Elem, m: &Self::Elem) -> (r: bool)
        requires
            self.wf(),
            self.valid(self.model(*e)),
            self.valid(self.model(*m)),
        ensures
            r == self.reduced(self.model(*e), self.model(*m)),
    ;
}

/// A commutative ring in which every non-zero member is invertible. Its
/// division with remainder is exact division, so a field needs no Euclidean
/// measure; polynomials over a field are where that division pays off.
pub trait Field: IntegralDomain {
    /// The inverse that `inv` returns.
    spec fn recip_model(&self, a: Self::Model) -> Self::Model;

    spec fn div_model(&self, a: Self::Model, b: Self::Model) -> Self::Model;

    fn inv(&self, e: &Self::Elem) -> (r: Self::Elem)
        requires
            self.wf(),
            self.valid(self.model(*e)),
            self.model(*e) != self.zero_model(),
        ensures
            self.valid(self.model(r)),
            self.model(r) == self.recip_model(self.model(*e)),
    ;

    fn div(&self, a: &Self::Elem, b: &Self::Elem) -> (r: Self::Elem)
        requires
            self.wf(),
            self.valid(self.model(*a)),
            self.valid(self.model(*b)),
            self.model(*b) != self.zero_model(),
        ensures
            self.valid(self.model(r)),
            self.model(r) == self.div_model(self.model(*a), self.model(*b)),
    ;
}

/// The remainder of `a` divided by `b`.
pub fn rem<R: EuclideanDomain>(base: &R, a: &R::Elem, b: &R::Elem) -> (r: R::Elem)
    requires
        base.wf(),
        base.valid(base.model(*a)),
        base.valid(base.model(*b)),
    ensures
        base.valid(base.model(r)),
        base.model(r) == base.rem_model(base.model(*a), base.model(*b)),
        base.reduced(base.model(r), base.model(*b)),
{
    let (_, r) = base.quo_rem(a, b);
    r
}

/// The extended Euclidean algorithm on models: from the remainders `r0`,
/// `r1` and their coefficients, runs at most `fuel` division steps and
/// returns the last non-zero remainder with its coefficients.
pub open spec fn egcd_model<R: EuclideanDomain>(
    base: R,
    r0: R::Model,
    s0: R::Model,
    t0: R::Model,
    r1: R::Model,
    s1: R::Model,
    t1: R::Model,
    fuel: nat,
) -> (R::Model, R::Model, R::Model)
    decreases fuel,
{
    if fuel == 0 || r1 == base.zero_model() {
        (r0, s0, t0)
    } else {
        let q = base.quo_model(r0, r1);
        let r2 = base.rem_model(r0, r1);
        let s2 = base.add_model(s0, base.neg_model(base.mul_model(q, s1)));
        let t2 = base.add_model(t0, base.neg_model(base.mul_model(q, t1)));
        egcd_model(base, r1, s1, t1, r2, s2, t2, (fuel - 1) as nat)
    }
}

/// What `extended_gcd` returns on members with models `a` and `b`.
pub open spec fn gcd_model<R: EuclideanDomain>(base: R, a: R::Model, b: R::Model) -> (
    R::Model,
    R::Model,
    R::Model,
) {
    egcd_model(
        base,
        a,
        base.one_model(),
        base.zero_model(),
        b,
        base.zero_model(),
        base.one_model(),
        base.size(b) + 1,
    )
}

/// Returns `(g, x, y)` where `g` is the last non-zero remainder of the
/// Euclidean algorithm on `a` and `b`, and `x`, `y` are the coefficients that
/// the algorithm carries along, so that `g = a * x + b * y` in a ring whose
/// laws hold. The result is exactly `gcd_model` of the two models.
pub fn extended_gcd<R: EuclideanDomain>(base: &R, a: &R::Elem, b: &R::Elem) -> (r: (
    R::Elem,
    R::Elem,
    R::Elem,
))
    requires
        base.wf(),
        base.valid(base.model(*a)),
        base.valid(base.model(*b)),
    ensures
        base.valid(base.model(r.0)),
        base.valid(base.model(r.1)),
        base.valid(base.model(r.2)),
        (base.model(r.0), base.model(r.1), base.model(r.2)) == gcd_model(
            *base,
            base.model(*a),
            base.model(*b),
        ),
{
    let mut r0 = base.clone_elem(a);
    let mut s0 = base.one();
    let mut t0 = base.zero();
    let mut r1 = base.clone_elem(b);
    let mut s1 = base.zero();
    let mut t1 = base.one();
    let ghost mut fuel: nat = base.size(base.model(*b)) + 1;
    while !base.is_zero(&r1)
        invariant
            base.wf(),
            base.valid(base.model(r0)),
            base.valid(base.model(s0)),
            base.valid(base.model(t0)),
            base.valid(base.model(r1)),
            base.valid(base.model(s1)),
            base.valid(base.model(t1)),
            fuel > base.size(base.model(r1)),
            egcd_model(
                *base,
                base.model(r0),
                base.model(s0),
                base.model(t0),
                base.model(r1),
                base.model(s1),
                base.model(t1),
                fuel,
            ) == gcd_model(*base, base.model(*a), base.model(*b)),
        decreases base.size(base.model(r1)),
    {
        let (q, r2) = base.quo_rem(&r0, &r1);
        let s2 = base.add(&s0, &base.neg(&base.mul(&q, &s1)));
        let t2 = base.add(&t0, &base.neg(&base.mul(&q, &t1)));
        r0 = r1;
        s0 = s1;
        t0 = t1;
        r1 = r2;
        s1 = s2;
        t1 = t2;
        proof {
            fuel = (fuel - 1) as nat;
        }
    }
    (r0, s0, t0)
}

} // verus!
