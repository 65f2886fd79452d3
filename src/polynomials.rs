//! Univariate polynomials over a base ring, as dense coefficient vectors in
//! normalized form: the empty vector is zero, and otherwise the last entry,
//! the leading coefficient, is non-zero.
use vstd::prelude::*;
use crate::traits::{
    AdditiveGroup, Domain, EuclideanDomain, Field, IntegralDomain, UnitaryRing,
};

verus! {

/// The ring of polynomials over the ring `R`. Index `i` of an element holds
/// the coefficient of `x^i`, so every polynomial has exactly one
/// representation.
#[derive(Clone, Debug, Default)]
pub struct Polynomials<R: UnitaryRing> {
    base: R,
}

impl<R: UnitaryRing> Polynomials<R> {
    /// The base ring.
    pub closed spec fn base_ring(&self) -> R {
        self.base
    }

    /// The models of the coefficients of a vector.
    pub open spec fn coefs(&self, v: Vec<R::Elem>) -> Seq<R::Model> {
        v@.map_values(|x: R::Elem| self.base_ring().model(x))
    }

    /// The sequence is empty or ends with a non-zero coefficient.
    pub open spec fn normalized(&self, s: Seq<R::Model>) -> bool {
        s.len() == 0 || s.last() != self.base_ring().zero_model()
    }

    /// Every coefficient is a member of the base ring.
    pub open spec fn coefs_valid(&self, s: Seq<R::Model>) -> bool {
        forall|i: int| 0 <= i < s.len() ==> self.base_ring().valid(#[trigger] s[i])
    }

    /// The coefficient of `x^i`, zero past the end.
    pub open spec fn coef(&self, s: Seq<R::Model>, i: int) -> R::Model {
        if 0 <= i < s.len() {
            s[i]
        } else {
            self.base_ring().zero_model()
        }
    }

    /// The sequence without its trailing zeros.
    pub open spec fn trim(&self, s: Seq<R::Model>) -> Seq<R::Model>
        decreases s.len(),
    {
        if s.len() > 0 && s.last() == self.base_ring().zero_model() {
            self.trim(s.drop_last())
        } else {
            s
        }
    }

    /// Coefficientwise sum, normalized.
    pub open spec fn add_seq(&self, a: Seq<R::Model>, b: Seq<R::Model>) -> Seq<R::Model> {
        let n = if a.len() > b.len() { a.len() } else { b.len() };
        self.trim(
            Seq::new(
                n,
                |i: int| self.base_ring().add_model(self.coef(a, i), self.coef(b, i)),
            ),
        )
    }

    /// Coefficientwise negation, normalized.
    pub open spec fn neg_seq(&self, a: Seq<R::Model>) -> Seq<R::Model> {
        self.trim(a.map_values(|x: R::Model| self.base_ring().neg_model(x)))
    }

    /// The coefficient of `x^t` in the product of `a` and `b`, summed over the
    /// first `n` coefficients of `a` in increasing order.
    pub open spec fn conv(&self, a: Seq<R::Model>, b: Seq<R::Model>, t: int, n: int) -> R::Model
        decreases n,
    {
        if n <= 0 {
            self.base_ring().zero_model()
        } else {
            let p = self.conv(a, b, t, n - 1);
            let i = n - 1;
            if 0 <= t - i < b.len() {
                self.base_ring().add_model(p, self.base_ring().mul_model(a[i], b[t - i]))
            } else {
                p
            }
        }
    }

    /// The product of two coefficient sequences, normalized. A product too
    /// long for a vector's length to count is never formed, and is empty.
    pub open spec fn mul_seq(&self, a: Seq<R::Model>, b: Seq<R::Model>) -> Seq<R::Model> {
        if a.len() == 0 || b.len() == 0 || a.len() + b.len() > usize::MAX {
            Seq::empty()
        } else {
            self.trim(Seq::new((a.len() + b.len() - 1) as nat, |t: int| self.conv(a, b, t, a.len() as int)))
        }
    }

    /// Creates the ring of polynomials over `base`, which must not be the
    /// trivial ring.
    pub fn new(base: R) -> (r: Self)
        requires
            base.wf(),
            base.one_model() != base.zero_model(),
        ensures
            r.base_ring() == base,
            r.wf(),
    {
        Polynomials { base }
    }

    /// Returns the base ring from which this ring was created.
    pub fn base(&self) -> (r: &R)
        ensures
            *r == self.base_ring(),
    {
        &self.base
    }

    /// Returns the degree of the polynomial; zero has no degree.
    pub fn degree(&self, elem: &Vec<R::Elem>) -> (r: Option<usize>)
        ensures
            elem@.len() == 0 ==> r is None,
            elem@.len() > 0 ==> r == Some((elem@.len() - 1) as usize),
    {
        if elem.len() == 0 {
            None
        } else {
            Some(elem.len() - 1)
        }
    }

    /// Returns the leading coefficient of the polynomial; zero has none.
    pub fn leading_coef(&self, elem: &Vec<R::Elem>) -> (r: Option<R::Elem>)
        requires
            self.wf(),
            self.valid(self.model(*elem)),
        ensures
            elem@.len() == 0 ==> r is None,
            elem@.len() > 0 ==> (r matches Some(c) && self.base_ring().model(c) == self.model(
                *elem,
            ).last()),
    {
        if elem.len() == 0 {
            None
        } else {
            let c = self.base.clone_elem(&elem[elem.len() - 1]);
            Some(c)
        }
    }

    /// The models of the coefficients, one by one.
    pub proof fn lemma_coefs(&self, v: Vec<R::Elem>)
        ensures
            self.coefs(v).len() == v@.len(),
            forall|i: int|
                0 <= i < v@.len() ==> self.coefs(v)[i] == self.base_ring().model(#[trigger] v@[i]),
    {
    }

    /// A vector is zero exactly when it is empty.
    pub proof fn lemma_empty(&self, v: Vec<R::Elem>)
        ensures
            self.coefs(v).len() == v@.len(),
            (self.coefs(v) == Seq::<R::Model>::empty()) <==> v@.len() == 0,
    {
        if v@.len() == 0 {
            assert(self.coefs(v) =~= Seq::<R::Model>::empty());
        }
    }

    /// Drops the trailing zero coefficients.
    fn trim_vec(&self, v: &mut Vec<R::Elem>)
        requires
            self.base.wf(),
            self.coefs_valid(self.coefs(*old(v))),
        ensures
            self.coefs(*final(v)) == self.trim(self.coefs(*old(v))),
            self.valid(self.coefs(*final(v))),
            final(v)@.len() <= old(v)@.len(),
    {
        proof {
            self.lemma_coefs(*v);
        }
        while v.len() > 0 && self.base.is_zero(&v[v.len() - 1])
            invariant
                self.base.wf(),
                self.coefs_valid(self.coefs(*v)),
                forall|i: int| 0 <= i < v@.len() ==> self.coefs(*v)[i] == self.base_ring().model(#[trigger] v@[i]),
                self.trim(self.coefs(*v)) == self.trim(self.coefs(*old(v))),
                v@.len() <= old(v)@.len(),
            decreases v@.len(),
        {
            let ghost before = self.coefs(*v);
            v.pop();
            proof {
                self.lemma_coefs(*v);
            }
            assert(self.coefs(*v) =~= before.drop_last());
        }
    }

    /// A vector of `n` zeros of the base ring.
    fn zeros(&self, n: usize) -> (r: Vec<R::Elem>)
        requires
            self.base.wf(),
        ensures
            r@.len() == n,
            self.coefs_valid(self.coefs(r)),
            forall|t: int| 0 <= t < n ==> #[trigger] self.coefs(r)[t] == self.base_ring().zero_model(),
    {
        let mut v: Vec<R::Elem> = Vec::new();
        while v.len() < n
            invariant
                self.base.wf(),
                v@.len() <= n,
                self.coefs_valid(self.coefs(v)),
                forall|t: int| 0 <= t < v@.len() ==> #[trigger] self.coefs(v)[t] == self.base_ring().zero_model(),
            decreases n - v@.len(),
        {
            proof {
                self.lemma_coefs(v);
            }
            v.push(self.base.zero());
            proof {
                self.lemma_coefs(v);
            }
        }
        v
    }
}

impl<R: UnitaryRing> Domain for Polynomials<R> {
    type Elem = Vec<R::Elem>;

    type Model = Seq<R::Model>;

    open spec fn wf(&self) -> bool {
        self.base_ring().wf() && self.base_ring().one_model() != self.base_ring().zero_model()
    }

    open spec fn model(&self, e: Vec<R::Elem>) -> Seq<R::Model> {
        self.coefs(e)
    }

    open spec fn valid(&self, m: Seq<R::Model>) -> bool {
        self.coefs_valid(m) && self.normalized(m)
    }

    fn contains(&self, e: &Vec<R::Elem>) -> (r: bool) {
        let one = self.base.one();
        let mut i: usize = 0;
        while i < e.len()
            invariant
                self.wf(),
                i <= e@.len(),
                forall|j: int| 0 <= j < i ==> self.base_ring().valid(#[trigger] self.coefs(*e)[j]),
            decreases e@.len() - i,
        {
            proof {
                self.lemma_coefs(*e);
            }
            if !self.base.contains(&e[i]) {
                return false;
            }
            i += 1;
        }
        proof {
            self.lemma_coefs(*e);
        }
        if e.len() == 0 {
            !self.base.is_zero(&one)
        } else {
            !self.base.is_zero(&e[e.len() - 1])
        }
    }

    fn equals(&self, a: &Vec<R::Elem>, b: &Vec<R::Elem>) -> (r: bool) {
        if a.len() != b.len() {
            return false;
        }
        let mut i: usize = 0;
        while i < a.len()
            invariant
                self.wf(),
                self.valid(self.model(*a)),
                self.valid(self.model(*b)),
                a@.len() == b@.len(),
                i <= a@.len(),
                forall|j: int| 0 <= j < i ==> #[trigger] self.coefs(*a)[j] == self.coefs(*b)[j],
            decreases a@.len() - i,
        {
            proof {
                self.lemma_coefs(*a);
                self.lemma_coefs(*b);
            }
            if !self.base.equals(&a[i], &b[i]) {
                return false;
            }
            i += 1;
        }
        assert(self.coefs(*a) =~= self.coefs(*b));
        true
    }

    fn clone_elem(&self, e: &Vec<R::Elem>) -> (r: Vec<R::Elem>) {
        let mut v: Vec<R::Elem> = Vec::new();
        let mut i: usize = 0;
        while i < e.len()
            invariant
                self.wf(),
                self.valid(self.model(*e)),
                i <= e@.len(),
                v@.len() == i,
                forall|j: int| 0 <= j < i ==> #[trigger] self.coefs(v)[j] == self.coefs(*e)[j],
            decreases e@.len() - i,
        {
            proof {
                self.lemma_coefs(*e);
                self.lemma_coefs(v);
            }
            v.push(self.base.clone_elem(&e[i]));
            proof {
                self.lemma_coefs(v);
            }
            i += 1;
        }
        assert(self.coefs(v) =~= self.coefs(*e));
        v
    }
}

impl<R: UnitaryRing> AdditiveGroup for Polynomials<R> {
    open spec fn zero_model(&self) -> Seq<R::Model> {
        Seq::empty()
    }

    open spec fn neg_model(&self, a: Seq<R::Model>) -> Seq<R::Model> {
        self.neg_seq(a)
    }

    open spec fn add_model(&self, a: Seq<R::Model>, b: Seq<R::Model>) -> Seq<R::Model> {
        self.add_seq(a, b)
    }

    fn zero(&self) -> (r: Vec<R::Elem>) {
        let v: Vec<R::Elem> = Vec::new();
        assert(self.coefs(v) =~= Seq::<R::Model>::empty());
        v
    }

    fn is_zero(&self, e: &Vec<R::Elem>) -> (r: bool) {
        proof {
            self.lemma_coefs(*e);
            if e@.len() == 0 {
                assert(self.coefs(*e) =~= Seq::<R::Model>::empty());
            }
        }
        e.len() == 0
    }

    fn neg(&self, e: &Vec<R::Elem>) -> (r: Vec<R::Elem>) {
        let ghost a = self.coefs(*e);
        let mut v: Vec<R::Elem> = Vec::new();
        let mut i: usize = 0;
        while i < e.len()
            invariant
                self.wf(),
                self.valid(a),
                a == self.coefs(*e),
                i <= e@.len(),
                v@.len() == i,
                self.coefs_valid(self.coefs(v)),
                forall|j: int|
                    0 <= j < i ==> #[trigger] self.coefs(v)[j] == self.base_ring().neg_model(a[j]),
            decreases e@.len() - i,
        {
            proof {
                self.lemma_coefs(*e);
                self.lemma_coefs(v);
            }
            v.push(self.base.neg(&e[i]));
            proof {
                self.lemma_coefs(v);
            }
            i += 1;
        }
        assert(self.coefs(v) =~= a.map_values(|x: R::Model| self.base_ring().neg_model(x)));
        self.trim_vec(&mut v);
        v
    }

    fn add(&self, a: &Vec<R::Elem>, b: &Vec<R::Elem>) -> (r: Vec<R::Elem>) {
        let ghost sa = self.coefs(*a);
        let ghost sb = self.coefs(*b);
        let n: usize = if a.len() > b.len() { a.len() } else { b.len() };
        let z = self.base.zero();
        let mut v: Vec<R::Elem> = Vec::new();
        let mut i: usize = 0;
        while i < n
            invariant
                self.wf(),
                self.valid(sa),
                self.valid(sb),
                sa == self.coefs(*a),
                sb == self.coefs(*b),
                n == (if a@.len() > b@.len() { a@.len() } else { b@.len() }),
                self.base_ring().model(z) == self.base_ring().zero_model(),
                self.base_ring().valid(self.base_ring().model(z)),
                i <= n,
                v@.len() == i,
                self.coefs_valid(self.coefs(v)),
                forall|j: int|
                    0 <= j < i ==> #[trigger] self.coefs(v)[j] == self.base_ring().add_model(
                        self.coef(sa, j),
                        self.coef(sb, j),
                    ),
            decreases n - i,
        {
            proof {
                self.lemma_coefs(*a);
                self.lemma_coefs(*b);
                self.lemma_coefs(v);
            }
            let x = if i < a.len() { &a[i] } else { &z };
            let y = if i < b.len() { &b[i] } else { &z };
            v.push(self.base.add(x, y));
            proof {
                self.lemma_coefs(v);
            }
            i += 1;
        }
        assert(self.coefs(v) =~= Seq::new(
            n as nat,
            |j: int| self.base_ring().add_model(self.coef(sa, j), self.coef(sb, j)),
        ));
        self.trim_vec(&mut v);
        v
    }
}

impl<R: UnitaryRing> UnitaryRing for Polynomials<R> {
    open spec fn one_model(&self) -> Seq<R::Model> {
        seq![self.base_ring().one_model()]
    }

    open spec fn mul_model(&self, a: Seq<R::Model>, b: Seq<R::Model>) -> Seq<R::Model> {
        self.mul_seq(a, b)
    }

    open spec fn inv_model(&self, a: Seq<R::Model>) -> Option<Seq<R::Model>> {
        if a.len() == 1 {
            match self.base_ring().inv_model(a[0]) {
                Some(x) => if x != self.base_ring().zero_model() {
                    Some(seq![x])
                } else {
                    None
                },
                None => None,
            }
        } else {
            None
        }
    }

    fn one(&self) -> (r: Vec<R::Elem>) {
        let c = self.base.one();
        let mut v: Vec<R::Elem> = Vec::new();
        v.push(c);
        proof {
            self.lemma_coefs(v);
        }
        assert(self.coefs(v) =~= seq![self.base_ring().one_model()]);
        v
    }

    fn is_one(&self, e: &Vec<R::Elem>) -> (r: bool) {
        if e.len() == 1 {
            let r = self.base.is_one(&e[0]);
            assert(r == (self.coefs(*e) =~= seq![self.base_ring().one_model()]));
            r
        } else {
            false
        }
    }

    fn mul(&self, a: &Vec<R::Elem>, b: &Vec<R::Elem>) -> (r: Vec<R::Elem>) {
        let ghost sa = self.coefs(*a);
        let ghost sb = self.coefs(*b);
        if a.len() == 0 || b.len() == 0 {
            let v: Vec<R::Elem> = Vec::new();
            assert(self.coefs(v) =~= Seq::<R::Model>::empty());
            return v;
        }
        let n: usize = match a.len().checked_add(b.len()) {
            Some(s) => s - 1,
            None => {
                let v: Vec<R::Elem> = Vec::new();
                assert(self.coefs(v) =~= Seq::<R::Model>::empty());
                return v;
            },
        };
        let mut v = self.zeros(n);
        let mut i: usize = 0;
        while i < a.len()
            invariant
                self.wf(),
                self.valid(sa),
                self.valid(sb),
                sa == self.coefs(*a),
                sb == self.coefs(*b),
                n == a@.len() + b@.len() - 1,
                v@.len() == n,
                self.coefs_valid(self.coefs(v)),
                i <= a@.len(),
                forall|t: int| 0 <= t < n ==> #[trigger] self.coefs(v)[t] == self.conv(sa, sb, t, i as int),
            decreases a@.len() - i,
        {
            proof {
                self.lemma_coefs(*a);
                self.lemma_coefs(*b);
                self.lemma_coefs(v);
            }
            let mut j: usize = 0;
            while j < b.len()
                invariant
                    self.wf(),
                    self.valid(sa),
                    self.valid(sb),
                    sa == self.coefs(*a),
                    sb == self.coefs(*b),
                    n == a@.len() + b@.len() - 1,
                    v@.len() == n,
                    self.coefs_valid(self.coefs(v)),
                    i < a@.len(),
                    j <= b@.len(),
                    forall|t: int| 0 <= t < n ==> #[trigger] self.coefs(v)[t] == (if i <= t < i + j {
                        self.conv(sa, sb, t, i + 1)
                    } else {
                        self.conv(sa, sb, t, i as int)
                    }),
                decreases b@.len() - j,
            {
                proof {
                    self.lemma_coefs(*a);
                    self.lemma_coefs(*b);
                    self.lemma_coefs(v);
                }
                let c = self.base.mul(&a[i], &b[j]);
                let d = self.base.add(&v[i + j], &c);
                v.set(i + j, d);
                proof {
                    self.lemma_coefs(v);
                }
                j += 1;
            }
            assert forall|t: int| 0 <= t < n implies #[trigger] self.coefs(v)[t] == self.conv(
                sa,
                sb,
                t,
                i + 1,
            ) by {
                assert(self.conv(sa, sb, t, i + 1) == (if 0 <= t - i < sb.len() {
                    self.base_ring().add_model(self.conv(sa, sb, t, i as int), self.base_ring().mul_model(sa[i as int], sb[t - i]))
                } else {
                    self.conv(sa, sb, t, i as int)
                }));
            }
            i += 1;
        }
        assert(self.coefs(v) =~= Seq::new(
            (sa.len() + sb.len() - 1) as nat,
            |t: int| self.conv(sa, sb, t, sa.len() as int),
        ));
        self.trim_vec(&mut v);
        v
    }

    fn try_inv(&self, e: &Vec<R::Elem>) -> (r: Option<Vec<R::Elem>>) {
        if e.len() != 1 {
            return None;
        }
        match self.base.try_inv(&e[0]) {
            None => None,
            Some(x) => {
                if self.base.is_zero(&x) {
                    None
                } else {
                    let mut v: Vec<R::Elem> = Vec::new();
                    v.push(x);
                    proof {
                        self.lemma_coefs(v);
                    }
                    assert(self.coefs(v) =~= seq![self.base_ring().model(x)]);
                    Some(v)
                }
            },
        }
    }
}

impl<R: IntegralDomain> IntegralDomain for Polynomials<R> {
    open spec fn try_div_model(&self, a: Seq<R::Model>, b: Seq<R::Model>) -> Option<Seq<R::Model>> {
        self.exact_quo(a, b)
    }

    open spec fn assoc_model(&self, a: Seq<R::Model>) -> (Seq<R::Model>, Seq<R::Model>) {
        self.assoc_seq(a)
    }

    fn try_div(&self, a: &Vec<R::Elem>, b: &Vec<R::Elem>) -> (r: Option<Vec<R::Elem>>)
        ensures
            a@.len() == 0 ==> (r matches Some(q) && q@.len() == 0),
            b@.len() > 0 && a@.len() < b@.len() ==> (r is Some <==> a@.len() == 0),
            r matches Some(q) ==> a@.len() > 0 && b@.len() > 0 ==> q@.len() <= a@.len() - b@.len()
                + 1,
    {
        let ghost sa = self.coefs(*a);
        let ghost sb = self.coefs(*b);
        proof {
            self.lemma_coefs(*a);
            self.lemma_coefs(*b);
            self.lemma_empty(*a);
            self.lemma_empty(*b);
        }
        if b.len() == 0 || a.len() < b.len() {
            if a.len() == 0 {
                let z = self.zero();
                proof {
                    self.lemma_empty(z);
                }
                return Some(z);
            } else {
                return None;
            }
        }
        let lb: usize = b.len();
        let nq: usize = a.len() - lb + 1;
        let mut quo = self.zeros(nq);
        let mut rem = self.clone_elem(a);
        let lead = &b[lb - 1];
        let mut k: usize = nq;
        while k > 0
            invariant
                self.wf(),
                self.valid(sb),
                sb == self.coefs(*b),
                sa == self.coefs(*a),
                lb == b@.len(),
                lb >= 1,
                lb <= a@.len(),
                a@.len() <= usize::MAX,
                nq == a@.len() - lb + 1,
                *lead == b@[lb - 1],
                quo@.len() == nq,
                rem@.len() == a@.len(),
                self.coefs_valid(self.coefs(quo)),
                self.coefs_valid(self.coefs(rem)),
                k <= nq,
                self.exact_steps_then(self.coefs(rem), sb, k as nat, self.coefs(quo).subrange(k as int, nq as int))
                    == self.exact_steps(sa, sb, nq as nat),
            decreases k,
        {
            proof {
                self.lemma_coefs(*b);
                self.lemma_coefs(rem);
                self.lemma_coefs(quo);
            }
            let ghost old_rem = self.coefs(rem);
            let ghost old_quo = self.coefs(quo);
            k -= 1;
            let c = match self.base.try_div(&rem[k + lb - 1], lead) {
                None => {
                    proof {
                        self.lemma_empty(*b);
                    }
                    return None;
                },
                Some(c) => c,
            };
            let ghost cm = self.base_ring().model(c);
            let nc = self.base.neg(&c);
            quo.set(k, c);
            proof {
                self.lemma_coefs(quo);
            }
            let mut j: usize = 0;
            while j < lb - 1
                invariant
                    self.wf(),
                    self.valid(sb),
                    sb == self.coefs(*b),
                    lb == b@.len(),
                    lb >= 1,
                    lb <= a@.len(),
                    a@.len() <= usize::MAX,
                    k < nq,
                    nq == a@.len() - lb + 1,
                    rem@.len() == a@.len(),
                    old_rem.len() == a@.len(),
                    self.coefs_valid(self.coefs(rem)),
                    self.base_ring().valid(self.base_ring().model(nc)),
                    self.base_ring().model(nc) == self.base_ring().neg_model(cm),
                    j <= lb - 1,
                    forall|t: int| 0 <= t < a@.len() ==> #[trigger] self.coefs(rem)[t] == (if k <= t < k + j {
                        self.base_ring().add_model(
                            old_rem[t],
                            self.base_ring().mul_model(sb[t - k], self.base_ring().model(nc)),
                        )
                    } else {
                        old_rem[t]
                    }),
                decreases lb - 1 - j,
            {
                proof {
                    self.lemma_coefs(*b);
                    self.lemma_coefs(rem);
                }
                let d = self.base.mul(&b[j], &nc);
                let e = self.base.add(&rem[k + j], &d);
                rem.set(k + j, e);
                proof {
                    self.lemma_coefs(rem);
                }
                j += 1;
            }
            proof {
                let new_rem = self.coefs(rem);
                assert(new_rem =~= self.exact_step(old_rem, sb, k as int, cm));
                let tail = old_quo.subrange(k + 1, nq as int);
                assert(self.coefs(quo).subrange(k as int, nq as int) =~= seq![cm] + tail);
                match self.exact_steps(new_rem, sb, k as nat) {
                    None => {},
                    Some(qr) => {
                        assert(qr.0.push(cm) + tail =~= qr.0 + (seq![cm] + tail));
                    },
                }
            }
        }
        proof {
            self.lemma_coefs(rem);
            self.lemma_coefs(quo);
            assert(self.coefs(quo).subrange(0, nq as int) =~= self.coefs(quo));
            assert(Seq::<R::Model>::empty() + self.coefs(quo) =~= self.coefs(quo));
        }
        let mut i: usize = 0;
        while i < lb - 1
            invariant
                self.wf(),
                sb == self.coefs(*b),
                sa == self.coefs(*a),
                lb == b@.len(),
                rem@.len() == a@.len(),
                lb <= a@.len(),
                nq == a@.len() - lb + 1,
                self.coefs_valid(self.coefs(rem)),
                self.exact_steps(sa, sb, nq as nat) == Some((self.coefs(quo), self.coefs(rem))),
                i <= lb - 1,
                forall|t: int| 0 <= t < i ==> #[trigger] self.coefs(rem)[t] == self.base_ring().zero_model(),
            decreases lb - 1 - i,
        {
            proof {
                self.lemma_coefs(rem);
            }
            if !self.base.is_zero(&rem[i]) {
                proof {
                    self.lemma_empty(*b);
                    let rest = self.coefs(rem);
                    assert(rest[i as int] != self.base_ring().zero_model());
                    assert(!(forall|t: int| 0 <= t < sb.len() - 1 ==> #[trigger] rest[t] == self.base_ring().zero_model()));
                    self.lemma_empty(*a);
                    self.lemma_empty(*b);
                    assert(sa.len() - sb.len() + 1 == nq);
                    assert(!(sb.len() == 0 || sa.len() < sb.len()));
                    let qr = self.exact_steps(sa, sb, (sa.len() - sb.len() + 1) as nat).unwrap();
                    assert(qr.1 == rest);
                    assert(!(forall|t: int| 0 <= t < sb.len() - 1 ==> #[trigger] qr.1[t] == self.base_ring().zero_model()));
                    assert(self.exact_quo(sa, sb) is None);
                }
                return None;
            }
            i += 1;
        }
        self.trim_vec(&mut quo);
        proof {
            self.lemma_empty(quo);
        }
        Some(quo)
    }

    fn associate_repr(&self, e: &Vec<R::Elem>) -> (r: (Vec<R::Elem>, Vec<R::Elem>))
        ensures
            e@.len() == 0 ==> r.0@.len() == 0 && self.model(r.1) == self.one_model(),
            e@.len() > 0 ==> r.0@.len() == e@.len() && r.1@.len() == 1,
            e@.len() > 0 ==> self.model(r.1) == seq![
                self.base_ring().assoc_model(self.model(*e).last()).1
            ],
            e@.len() > 0 ==> self.model(r.0).last() == self.base_ring().assoc_model(
                self.model(*e).last(),
            ).0,
            e@.len() > 0 ==> forall|i: int|
                0 <= i < e@.len() - 1 ==> #[trigger] self.model(r.0)[i]
                    == self.base_ring().mul_model(self.model(*e)[i], self.model(r.1)[0]),
    {
        proof {
            self.lemma_coefs(*e);
            self.lemma_empty(*e);
        }
        if e.len() == 0 {
            return (self.zero(), self.one());
        }
        let last: usize = e.len() - 1;
        let (repr, unit) = self.base.associate_repr(&e[last]);
        let mut v: Vec<R::Elem> = Vec::new();
        let mut i: usize = 0;
        while i < e.len()
            invariant
                self.wf(),
                self.valid(self.model(*e)),
                self.base_ring().valid(self.base_ring().model(unit)),
                i <= e@.len(),
                v@.len() == i,
                self.coefs_valid(self.coefs(v)),
                forall|j: int| 0 <= j < i ==> #[trigger] self.coefs(v)[j] == self.base_ring().mul_model(
                    self.coefs(*e)[j],
                    self.base_ring().model(unit),
                ),
            decreases e@.len() - i,
        {
            proof {
                self.lemma_coefs(*e);
                self.lemma_coefs(v);
            }
            v.push(self.base.mul(&e[i], &unit));
            proof {
                self.lemma_coefs(v);
            }
            i += 1;
        }
        // the top slot takes the representative itself, which keeps it exact
        // where the base ring only approximates its products
        proof {
            self.lemma_coefs(v);
        }
        v.set(last, repr);
        let mut u: Vec<R::Elem> = Vec::new();
        u.push(unit);
        proof {
            self.lemma_coefs(v);
            self.lemma_coefs(u);
            self.lemma_empty(v);
            self.lemma_empty(u);
            assert(self.coefs(u) =~= seq![self.base_ring().model(unit)]);
        }
        (v, u)
    }
}

impl<R: IntegralDomain> Polynomials<R> {
    /// One step of exact long division by `b` at `k`, with quotient
    /// coefficient `c`: `c * x^k * b` is subtracted from `r`, except at the
    /// top coefficient, which is left for the caller to drop.
    pub open spec fn exact_step(&self, r: Seq<R::Model>, b: Seq<R::Model>, k: int, c: R::Model) -> Seq<R::Model> {
        Seq::new(
            r.len(),
            |t: int|
                if k <= t < k + b.len() - 1 {
                    self.base_ring().add_model(
                        r[t],
                        self.base_ring().mul_model(b[t - k], self.base_ring().neg_model(c)),
                    )
                } else {
                    r[t]
                },
        )
    }

    /// Exact long division steps at `k - 1` down to 0: the quotient
    /// coefficients, lowest first, and what is left of `r`; `None` as soon as
    /// a leading coefficient is not divisible in the base ring.
    pub open spec fn exact_steps(&self, r: Seq<R::Model>, b: Seq<R::Model>, k: nat) -> Option<(Seq<R::Model>, Seq<R::Model>)>
        decreases k,
    {
        if k == 0 {
            Some((Seq::empty(), r))
        } else {
            match self.base_ring().try_div_model(r[k - 1 + b.len() - 1], b.last()) {
                None => None,
                Some(c) => match self.exact_steps(self.exact_step(r, b, k - 1, c), b, (k - 1) as nat) {
                    None => None,
                    Some(qr) => Some((qr.0.push(c), qr.1)),
                },
            }
        }
    }

    /// The exact steps, with `tail` appended to the quotient coefficients.
    pub open spec fn exact_steps_then(&self, r: Seq<R::Model>, b: Seq<R::Model>, k: nat, tail: Seq<R::Model>) -> Option<(Seq<R::Model>, Seq<R::Model>)> {
        match self.exact_steps(r, b, k) {
            None => None,
            Some(qr) => Some((qr.0 + tail, qr.1)),
        }
    }

    /// The exact quotient of `a` by `b`: long division that succeeds at every
    /// step and leaves a zero remainder.
    pub open spec fn exact_quo(&self, a: Seq<R::Model>, b: Seq<R::Model>) -> Option<Seq<R::Model>> {
        if b.len() == 0 || a.len() < b.len() {
            if a.len() == 0 {
                Some(Seq::empty())
            } else {
                None
            }
        } else {
            match self.exact_steps(a, b, (a.len() - b.len() + 1) as nat) {
                None => None,
                Some(qr) => if forall|i: int| 0 <= i < b.len() - 1 ==> #[trigger] qr.1[i] == self.base_ring().zero_model() {
                    Some(self.trim(qr.0))
                } else {
                    None
                },
            }
        }
    }

    /// The associate of `a` whose leading coefficient is the base ring's
    /// representative, and the constant unit relating the two.
    pub open spec fn assoc_seq(&self, a: Seq<R::Model>) -> (Seq<R::Model>, Seq<R::Model>) {
        if a.len() == 0 {
            (Seq::empty(), seq![self.base_ring().one_model()])
        } else {
            let (rp, u) = self.base_ring().assoc_model(a.last());
            (
                Seq::new(
                    a.len(),
                    |i: int| if i == a.len() - 1 { rp } else { self.base_ring().mul_model(a[i], u) },
                ),
                seq![u],
            )
        }
    }
}

impl<F: Field> Polynomials<F> {
    /// One step of long division by `b`: the multiple of `b` that cancels the
    /// coefficient at `k + deg b` is subtracted from `r`, except at that
    /// coefficient itself, which is left for the caller to drop.
    pub open spec fn div_step(&self, r: Seq<F::Model>, b: Seq<F::Model>, k: int) -> Seq<F::Model> {
        let c = self.base_ring().div_model(r[k + b.len() - 1], b.last());
        Seq::new(
            r.len(),
            |t: int|
                if k <= t < k + b.len() - 1 {
                    self.base_ring().add_model(
                        r[t],
                        self.base_ring().mul_model(b[t - k], self.base_ring().neg_model(c)),
                    )
                } else {
                    r[t]
                },
        )
    }

    /// What is left of `r` after the division steps at `k - 1` down to 0.
    pub open spec fn div_rest(&self, r: Seq<F::Model>, b: Seq<F::Model>, k: nat) -> Seq<F::Model>
        decreases k,
    {
        if k == 0 {
            r
        } else {
            self.div_rest(self.div_step(r, b, k - 1), b, (k - 1) as nat)
        }
    }

    /// The quotient coefficients that the division steps at `k - 1` down to
    /// 0 produce, lowest first.
    pub open spec fn div_quo(&self, r: Seq<F::Model>, b: Seq<F::Model>, k: nat) -> Seq<F::Model>
        decreases k,
    {
        if k == 0 {
            Seq::empty()
        } else {
            self.div_quo(self.div_step(r, b, k - 1), b, (k - 1) as nat).push(
                self.base_ring().div_model(r[k - 1 + b.len() - 1], b.last()),
            )
        }
    }
}

impl<F: Field> EuclideanDomain for Polynomials<F> {
    open spec fn size(&self, m: Seq<F::Model>) -> nat {
        m.len()
    }

    open spec fn reduced(&self, e: Seq<F::Model>, m: Seq<F::Model>) -> bool {
        m.len() == 0 || e.len() < m.len()
    }

    open spec fn quo_model(&self, a: Seq<F::Model>, b: Seq<F::Model>) -> Seq<F::Model> {
        if b.len() == 0 || a.len() < b.len() {
            Seq::empty()
        } else {
            self.trim(self.div_quo(a, b, (a.len() - b.len() + 1) as nat))
        }
    }

    open spec fn rem_model(&self, a: Seq<F::Model>, b: Seq<F::Model>) -> Seq<F::Model> {
        if b.len() == 0 || a.len() < b.len() {
            a
        } else {
            self.trim(
                self.div_rest(a, b, (a.len() - b.len() + 1) as nat).subrange(0, b.len() - 1),
            )
        }
    }

    proof fn lemma_zero_reduced(&self, m: Seq<F::Model>) {
    }

    fn quo_rem(&self, a: &Vec<F::Elem>, b: &Vec<F::Elem>) -> (r: (Vec<F::Elem>, Vec<F::Elem>)) {
        let ghost sa = self.coefs(*a);
        let ghost sb = self.coefs(*b);
        proof {
            self.lemma_coefs(*a);
            self.lemma_coefs(*b);
            self.lemma_empty(*a);
            self.lemma_empty(*b);
        }
        if b.len() == 0 || a.len() < b.len() {
            return (self.zero(), self.clone_elem(a));
        }
        let lb: usize = b.len();
        let nq: usize = a.len() - lb + 1;
        let mut quo = self.zeros(nq);
        let mut rem = self.clone_elem(a);
        let lead = &b[lb - 1];
        let mut k: usize = nq;
        while k > 0
            invariant
                self.wf(),
                self.valid(sb),
                sb == self.coefs(*b),
                sa == self.coefs(*a),
                lb == b@.len(),
                lb >= 1,
                lb <= a@.len(),
                a@.len() <= usize::MAX,
                nq == a@.len() - lb + 1,
                *lead == b@[lb - 1],
                quo@.len() == nq,
                rem@.len() == a@.len(),
                self.coefs_valid(self.coefs(quo)),
                self.coefs_valid(self.coefs(rem)),
                k <= nq,
                self.div_rest(self.coefs(rem), sb, k as nat) == self.div_rest(sa, sb, nq as nat),
                self.div_quo(self.coefs(rem), sb, k as nat) + self.coefs(quo).subrange(k as int, nq as int)
                    == self.div_quo(sa, sb, nq as nat),
            decreases k,
        {
            proof {
                self.lemma_coefs(*b);
                self.lemma_coefs(rem);
                self.lemma_coefs(quo);
            }
            let ghost old_rem = self.coefs(rem);
            let ghost old_quo = self.coefs(quo);
            k -= 1;
            let c = self.base.div(&rem[k + lb - 1], lead);
            let nc = self.base.neg(&c);
            quo.set(k, c);
            proof {
                self.lemma_coefs(quo);
            }
            let mut j: usize = 0;
            while j < lb - 1
                invariant
                    self.wf(),
                    self.valid(sb),
                    sb == self.coefs(*b),
                    lb == b@.len(),
                    lb >= 1,
                    lb <= a@.len(),
                    a@.len() <= usize::MAX,
                    k < nq,
                    nq == a@.len() - lb + 1,
                    rem@.len() == a@.len(),
                    old_rem.len() == a@.len(),
                    self.coefs_valid(self.coefs(rem)),
                    self.base_ring().valid(self.base_ring().model(nc)),
                    self.base_ring().model(nc) == self.base_ring().neg_model(
                        self.base_ring().div_model(old_rem[k + lb - 1], sb.last()),
                    ),
                    j <= lb - 1,
                    forall|t: int| 0 <= t < a@.len() ==> #[trigger] self.coefs(rem)[t] == (if k <= t < k + j {
                        self.base_ring().add_model(
                            old_rem[t],
                            self.base_ring().mul_model(sb[t - k], self.base_ring().model(nc)),
                        )
                    } else {
                        old_rem[t]
                    }),
                decreases lb - 1 - j,
            {
                proof {
                    self.lemma_coefs(*b);
                    self.lemma_coefs(rem);
                }
                let d = self.base.mul(&b[j], &nc);
                let e = self.base.add(&rem[k + j], &d);
                rem.set(k + j, e);
                proof {
                    self.lemma_coefs(rem);
                }
                j += 1;
            }
            proof {
                assert(self.coefs(rem) =~= self.div_step(old_rem, sb, k as int));
                assert(self.coefs(quo).subrange(k as int, nq as int) =~= seq![
                    self.base_ring().div_model(old_rem[k + lb - 1], sb.last())
                ] + old_quo.subrange(k + 1, nq as int));
                assert(self.div_quo(old_rem, sb, (k + 1) as nat) == self.div_quo(
                    self.coefs(rem),
                    sb,
                    k as nat,
                ).push(self.base_ring().div_model(old_rem[k + lb - 1], sb.last())));
                assert(self.div_quo(self.coefs(rem), sb, k as nat) + self.coefs(quo).subrange(
                    k as int,
                    nq as int,
                ) =~= self.div_quo(old_rem, sb, (k + 1) as nat) + old_quo.subrange(
                    k + 1,
                    nq as int,
                ));
            }
        }
        proof {
            assert(self.coefs(quo) =~= self.coefs(quo).subrange(0, nq as int));
            assert(self.div_quo(self.coefs(rem), sb, 0) + self.coefs(quo) =~= self.coefs(quo));
        }
        rem.truncate(lb - 1);
        proof {
            self.lemma_coefs(rem);
            assert(self.coefs(rem) =~= self.div_rest(sa, sb, nq as nat).subrange(0, lb - 1));
        }
        self.trim_vec(&mut rem);
        self.trim_vec(&mut quo);
        proof {
            self.lemma_empty(rem);
            self.lemma_empty(quo);
        }
        (quo, rem)
    }

    fn is_reduced(&self, e: &Vec<F::Elem>, m: &Vec<F::Elem>) -> (r: bool) {
        proof {
            self.lemma_coefs(*e);
            self.lemma_coefs(*m);
        }
        m.len() == 0 || e.len() < m.len()
    }
}

} // verus!
