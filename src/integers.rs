//! The ring of 32-bit machine integers, with two's complement wrapping
//! arithmetic and a Euclidean division whose remainder is the one of least
//! absolute value.
use vstd::prelude::*;
use crate::traits::{AdditiveGroup, Domain, EuclideanDomain, IntegralDomain, UnitaryRing};

verus! {

/// The integers modelled by `i32`.
#[derive(Clone, Copy, Debug, Default)]
pub struct I32;

/// The absolute value.
pub open spec fn abs(a: int) -> int {
    if a < 0 { -a } else { a }
}

/// The remainder of `a` modulo `b` that lies in `(-|b|/2, |b|/2]`; `a` itself
/// when `b` is zero.
pub open spec fn balanced_rem(a: int, b: int) -> int {
    if b == 0 {
        a
    } else {
        let m = abs(b);
        let r = a % m;
        if 2 * r > m { r - m } else { r }
    }
}

/// `e` lies in the balanced residue range of `m`.
pub open spec fn in_balanced_range(e: int, m: int) -> bool {
    m == 0 || (-abs(m) < 2 * e && 2 * e <= abs(m))
}

/// The quotient that goes with `balanced_rem`; for the divisor -1 it wraps
/// around like negation does.
pub open spec fn balanced_quo(a: i32, b: i32) -> i32 {
    if b == 0 {
        0
    } else if b == -1 {
        0i32.wrapping_sub(a)
    } else {
        let k = (a as int - balanced_rem(a as int, b as int)) / abs(b as int);
        (if b < 0 { -k } else { k }) as i32
    }
}

impl Domain for I32 {
    type Elem = i32;

    type Model = i32;

    open spec fn wf(&self) -> bool {
        true
    }

    open spec fn model(&self, e: i32) -> i32 {
        e
    }

    open spec fn valid(&self, m: i32) -> bool {
        true
    }

    fn contains(&self, e: &i32) -> (r: bool) {
        true
    }

    fn equals(&self, a: &i32, b: &i32) -> (r: bool) {
        *a == *b
    }

    fn clone_elem(&self, e: &i32) -> (r: i32) {
        *e
    }
}

impl AdditiveGroup for I32 {
    open spec fn zero_model(&self) -> i32 {
        0
    }

    open spec fn neg_model(&self, a: i32) -> i32 {
        0i32.wrapping_sub(a)
    }

    open spec fn add_model(&self, a: i32, b: i32) -> i32 {
        a.wrapping_add(b)
    }

    fn zero(&self) -> (r: i32) {
        0
    }

    fn is_zero(&self, e: &i32) -> (r: bool) {
        *e == 0
    }

    fn neg(&self, e: &i32) -> (r: i32) {
        0i32.wrapping_sub(*e)
    }

    fn add(&self, a: &i32, b: &i32) -> (r: i32) {
        a.wrapping_add(*b)
    }
}

impl UnitaryRing for I32 {
    open spec fn one_model(&self) -> i32 {
        1
    }

    open spec fn mul_model(&self, a: i32, b: i32) -> i32 {
        a.wrapping_mul(b)
    }

    open spec fn inv_model(&self, a: i32) -> Option<i32> {
        if a == 1 || a == -1 {
            Some(a)
        } else {
            None
        }
    }

    fn one(&self) -> (r: i32) {
        1
    }

    fn is_one(&self, e: &i32) -> (r: bool) {
        *e == 1
    }

    fn mul(&self, a: &i32, b: &i32) -> (r: i32) {
        a.wrapping_mul(*b)
    }

    fn try_inv(&self, e: &i32) -> (r: Option<i32>) {
        if *e == 1 || *e == -1 {
            Some(*e)
        } else {
            None
        }
    }
}

impl IntegralDomain for I32 {
    open spec fn try_div_model(&self, a: i32, b: i32) -> Option<i32> {
        if b == 0 {
            if a == 0 {
                Some(0)
            } else {
                None
            }
        } else if balanced_rem(a as int, b as int) == 0 {
            Some(balanced_quo(a, b))
        } else {
            None
        }
    }

    open spec fn assoc_model(&self, a: i32) -> (i32, i32) {
        if a < 0 {
            (0i32.wrapping_sub(a), -1i32)
        } else {
            (a, 1i32)
        }
    }

    fn try_div(&self, a: &i32, b: &i32) -> (r: Option<i32>)
        ensures
            *b != 0 ==> r == (if balanced_rem(*a as int, *b as int) == 0 {
                Some(balanced_quo(*a, *b))
            } else {
                None
            }),
    {
        if *b == 0 {
            if *a == 0 {
                Some(0)
            } else {
                None
            }
        } else {
            let (q, r) = self.quo_rem(a, b);
            if r == 0 {
                Some(q)
            } else {
                None
            }
        }
    }

    fn associate_repr(&self, e: &i32) -> (r: (i32, i32))
        ensures
            r == (if *e < 0 { (0i32.wrapping_sub(*e), -1i32) } else { (*e, 1i32) }),
    {
        if *e < 0 {
            (0i32.wrapping_sub(*e), -1)
        } else {
            (*e, 1)
        }
    }
}

impl EuclideanDomain for I32 {
    open spec fn size(&self, m: i32) -> nat {
        abs(m as int) as nat
    }

    open spec fn reduced(&self, e: i32, m: i32) -> bool {
        in_balanced_range(e as int, m as int)
    }

    open spec fn quo_model(&self, a: i32, b: i32) -> i32 {
        balanced_quo(a, b)
    }

    open spec fn rem_model(&self, a: i32, b: i32) -> i32 {
        if b == -1 {
            0
        } else {
            balanced_rem(a as int, b as int) as i32
        }
    }

    proof fn lemma_zero_reduced(&self, m: i32) {
    }

    fn quo_rem(&self, a: &i32, b: &i32) -> (r: (i32, i32))
        ensures
            *b != 0 && *b != -1 ==> r.0 as int * *b as int + r.1 as int == *a as int,
    {
        if *b == 0 {
            (0, *a)
        } else if *b == -1 {
            (0i32.wrapping_sub(*a), 0)
        } else {
            let x: i64 = *a as i64;
            let d: i64 = *b as i64;
            let m: i64 = if d < 0 { -d } else { d };
            let r0: i64 = match x.checked_rem_euclid(m) {
                Some(v) => v,
                None => 0,
            };
            let r: i64 = if 2 * r0 > m { r0 - m } else { r0 };
            assert(r as int == balanced_rem(x as int, d as int));
            proof {
                lemma_balanced_quotient(x as int, d as int);
            }
            let k: i64 = match (x - r).checked_div_euclid(m) {
                Some(v) => v,
                None => 0,
            };
            let q: i64 = if d < 0 { -k } else { k };
            assert(q * d == x - r) by (nonlinear_arith)
                requires
                    k * m == x - r,
                    d < 0 ==> m == -d && q == -k,
                    d >= 0 ==> m == d && q == k,
            ;
            (q as i32, r as i32)
        }
    }

    fn is_reduced(&self, e: &i32, m: &i32) -> (r: bool) {
        if *m == 0 {
            true
        } else {
            let x: i64 = *e as i64;
            let d: i64 = *m as i64;
            let am: i64 = if d < 0 { -d } else { d };
            -am < 2 * x && 2 * x <= am
        }
    }
}

/// For a divisor other than 0 and -1 the balanced remainder leaves an exact
/// multiple of the divisor, whose quotient fits in 32 bits.
proof fn lemma_balanced_quotient(x: int, d: int)
    requires
        -0x8000_0000 <= x < 0x8000_0000,
        -0x8000_0000 <= d < 0x8000_0000,
        d != 0,
        d != -1,
    ensures
        in_balanced_range(balanced_rem(x, d), d),
        ({
            let m = abs(d);
            let k = (x - balanced_rem(x, d)) / m;
            &&& k * m == x - balanced_rem(x, d)
            &&& m == 1 ==> k == x
            &&& m >= 2 ==> -0x4000_0002 <= k <= 0x4000_0002
        }),
{
    let m = abs(d);
    let r0 = x % m;
    let k0 = x / m;
    let r = balanced_rem(x, d);
    vstd::arithmetic::div_mod::lemma_fundamental_div_mod(x, m);
    vstd::arithmetic::div_mod::lemma_mod_bound(x, m);
    let k = if 2 * r0 > m { k0 + 1 } else { k0 };
    assert(x - r == m * k) by (nonlinear_arith)
        requires
            x == m * k0 + r0,
            r == (if 2 * r0 > m { r0 - m } else { r0 }),
            k == (if 2 * r0 > m { k0 + 1 } else { k0 }),
    ;
    vstd::arithmetic::div_mod::lemma_div_multiples_vanish(k, m);
    assert((x - r) / m == k);
    assert(k * m == x - r) by (nonlinear_arith)
        requires
            x - r == m * k,
    ;
    if m == 1 {
        assert(r0 == 0);
        assert(k0 == x) by (nonlinear_arith)
            requires
                m == 1,
                x == m * k0 + r0,
                r0 == 0,
        ;
    }
    if m >= 2 {
        assert(-0x4000_0002 <= k <= 0x4000_0002) by (nonlinear_arith)
            requires
                m >= 2,
                x - r == m * k,
                -0x8000_0000 <= x < 0x8000_0000,
                -m < 2 * r <= m,
        ;
    }
}

} // verus!
