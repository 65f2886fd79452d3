//! Algebraic laws of the structures, proved over their models.
use vstd::prelude::*;
use crate::integers::{abs, balanced_quo, balanced_rem, I32};
use crate::polynomials::Polynomials;
use crate::quotient_ring::QuotientRing;
use crate::traits::{AdditiveGroup, Domain, EuclideanDomain, UnitaryRing};

verus! {

/// Two's complement reduction of an integer to 32 bits keeps its residue
/// modulo 2^32.
proof fn lemma_crop_residue(x: int)
    ensures
        (vstd::wrapping::i32_specs::signed_crop(x) as int) % 0x1_0000_0000 == x % 0x1_0000_0000,
{
    let m: int = 0x1_0000_0000;
    let r = x % m;
    vstd::arithmetic::div_mod::lemma_mod_bound(x, m);
    if r > 0x7fff_ffff {
        vstd::arithmetic::div_mod::lemma_fundamental_div_mod_converse(r - m, m, -1, r);
    } else {
        vstd::arithmetic::div_mod::lemma_fundamental_div_mod_converse(r, m, 0, r);
    }
}

/// An integer that fits in 32 bits is its own reduction.
proof fn lemma_crop_small(x: int)
    requires
        i32::MIN <= x <= i32::MAX,
    ensures
        vstd::wrapping::i32_specs::signed_crop(x) as int == x,
{
    let m: int = 0x1_0000_0000;
    if x >= 0 {
        vstd::arithmetic::div_mod::lemma_fundamental_div_mod_converse(x, m, 0, x);
    } else {
        vstd::arithmetic::div_mod::lemma_fundamental_div_mod_converse(x, m, -1, x + m);
    }
}

/// Two integers with the same residue modulo 2^32 reduce to the same `i32`.
proof fn lemma_crop_determined(x: int, y: int)
    requires
        x % 0x1_0000_0000 == y % 0x1_0000_0000,
    ensures
        vstd::wrapping::i32_specs::signed_crop(x)
            == vstd::wrapping::i32_specs::signed_crop(y),
{
}

/// The integer ring is commutative and associative under addition and
/// multiplication, every member plus its negation is zero, and one is the
/// multiplicative identity.
pub proof fn lemma_i32_ring_laws(a: i32, b: i32, c: i32)
    ensures
        I32.add_model(a, b) == I32.add_model(b, a),
        I32.add_model(I32.add_model(a, b), c) == I32.add_model(a, I32.add_model(b, c)),
        I32.mul_model(a, b) == I32.mul_model(b, a),
        I32.mul_model(I32.mul_model(a, b), c) == I32.mul_model(a, I32.mul_model(b, c)),
        I32.add_model(a, I32.neg_model(a)) == I32.zero_model(),
        I32.mul_model(a, I32.one_model()) == a,
{
    let m: int = 0x1_0000_0000;
    assert(a as int * b as int == b as int * a as int) by (nonlinear_arith);
    let ab = I32.mul_model(a, b);
    let bc = I32.mul_model(b, c);
    lemma_crop_residue(a as int * b as int);
    lemma_crop_residue(b as int * c as int);
    vstd::arithmetic::div_mod::lemma_mul_mod_noop_left(a as int * b as int, c as int, m);
    vstd::arithmetic::div_mod::lemma_mul_mod_noop_left(ab as int, c as int, m);
    vstd::arithmetic::div_mod::lemma_mul_mod_noop_right(a as int, b as int * c as int, m);
    vstd::arithmetic::div_mod::lemma_mul_mod_noop_right(a as int, bc as int, m);
    assert((a as int * b as int) * c as int == a as int * (b as int * c as int)) by (nonlinear_arith);
    lemma_crop_determined(ab as int * c as int, a as int * bc as int);
    assert(a as int * 1 == a as int);
    lemma_crop_small(a as int);
}

/// Dividing a product `a * b` by `b` gives back `a` with remainder zero,
/// for a divisor other than 0 and -1 and a product that fits in 32 bits.
pub proof fn lemma_i32_div_of_product(a: i32, b: i32)
    requires
        b != 0,
        b != -1,
        i32::MIN <= a as int * b as int <= i32::MAX,
    ensures
        balanced_rem(a as int * b as int, b as int) == 0,
        balanced_quo((a as int * b as int) as i32, b) == a,
        I32.rem_model(I32.mul_model(a, b), b) == 0,
        I32.quo_model(I32.mul_model(a, b), b) == a,
{
    let x = a as int * b as int;
    let m = abs(b as int);
    let k = if b < 0 { -(a as int) } else { a as int };
    assert(x == k * m) by (nonlinear_arith)
        requires
            x == a as int * b as int,
            b < 0 ==> m == -b && k == -a,
            b >= 0 ==> m == b && k == a,
    ;
    vstd::arithmetic::div_mod::lemma_mod_multiples_basic(k, m);
    vstd::arithmetic::div_mod::lemma_div_multiples_vanish(k, m);
    assert(k * m == m * k) by (nonlinear_arith);
    lemma_crop_residue(x);
    lemma_crop_small(x);
    assert(I32.mul_model(a, b) as int == x);
}

/// Trimming keeps every coefficient, reading zero past the end.
proof fn lemma_trim_coef<R: UnitaryRing>(p: Polynomials<R>, s: Seq<R::Model>)
    ensures
        p.trim(s).len() <= s.len(),
        forall|i: int| #[trigger] p.coef(p.trim(s), i) == p.coef(s, i),
    decreases s.len(),
{
    if s.len() > 0 && s.last() == p.base_ring().zero_model() {
        lemma_trim_coef(p, s.drop_last());
    }
}

/// A sequence of zeros trims to the empty sequence.
proof fn lemma_trim_zeros<R: UnitaryRing>(p: Polynomials<R>, s: Seq<R::Model>)
    requires
        forall|i: int| 0 <= i < s.len() ==> s[i] == p.base_ring().zero_model(),
    ensures
        p.trim(s) == Seq::<R::Model>::empty(),
    decreases s.len(),
{
    if s.len() > 0 {
        lemma_trim_zeros(p, s.drop_last());
    } else {
        assert(s =~= Seq::<R::Model>::empty());
    }
}

/// Polynomial addition is commutative over a base ring whose addition is.
pub proof fn lemma_poly_add_commutes<R: UnitaryRing>(p: Polynomials<R>, a: Seq<R::Model>, b: Seq<R::Model>)
    requires
        forall|x: R::Model, y: R::Model| #[trigger] p.base_ring().add_model(x, y) == p.base_ring().add_model(y, x),
    ensures
        p.add_model(a, b) == p.add_model(b, a),
{
    let n = if a.len() > b.len() { a.len() } else { b.len() };
    assert(Seq::new(n, |i: int| p.base_ring().add_model(p.coef(a, i), p.coef(b, i))) =~= Seq::new(
        n,
        |i: int| p.base_ring().add_model(p.coef(b, i), p.coef(a, i)),
    ));
}

/// A polynomial plus its negation is zero, over a base ring where that
/// holds of every member.
pub proof fn lemma_poly_add_neg<R: UnitaryRing>(p: Polynomials<R>, a: Seq<R::Model>)
    requires
        p.wf(),
        p.valid(a),
        forall|x: R::Model|
            p.base_ring().valid(x) ==> #[trigger] p.base_ring().add_model(x, p.base_ring().neg_model(x))
                == p.base_ring().zero_model(),
    ensures
        p.add_model(a, p.neg_model(a)) == p.zero_model(),
{
    let m = a.map_values(|x: R::Model| p.base_ring().neg_model(x));
    let na = p.neg_model(a);
    lemma_trim_coef(p, m);
    let s = Seq::new(
        a.len(),
        |i: int| p.base_ring().add_model(p.coef(a, i), p.coef(na, i)),
    );
    assert forall|i: int| 0 <= i < s.len() implies s[i] == p.base_ring().zero_model() by {
        assert(p.coef(na, i) == p.coef(m, i));
        assert(p.base_ring().valid(a[i]));
    }
    lemma_trim_zeros(p, s);
}

/// The first `n` terms of the product of `a` with the constant one: zero
/// until the term of `x^t`, which is `a[t]`.
proof fn lemma_conv_one<R: UnitaryRing>(p: Polynomials<R>, a: Seq<R::Model>, t: int, n: int)
    requires
        0 <= t < a.len(),
        n <= a.len(),
        forall|x: R::Model|
            p.base_ring().valid(x) ==> #[trigger] p.base_ring().mul_model(x, p.base_ring().one_model())
                == x,
        forall|x: R::Model|
            p.base_ring().valid(x) ==> #[trigger] p.base_ring().add_model(p.base_ring().zero_model(), x)
                == x,
        p.coefs_valid(a),
    ensures
        p.conv(a, seq![p.base_ring().one_model()], t, n) == (if n <= t {
            p.base_ring().zero_model()
        } else {
            a[t]
        }),
    decreases n,
{
    if n > 0 {
        lemma_conv_one(p, a, t, n - 1);
        assert(p.base_ring().valid(a[t]));
    }
}

/// One is a right identity of polynomial multiplication, over a base ring
/// where one is a right identity and zero a left identity of addition.
pub proof fn lemma_poly_mul_one<R: UnitaryRing>(p: Polynomials<R>, a: Seq<R::Model>)
    requires
        p.wf(),
        p.valid(a),
        a.len() < usize::MAX,
        forall|x: R::Model|
            p.base_ring().valid(x) ==> #[trigger] p.base_ring().mul_model(x, p.base_ring().one_model())
                == x,
        forall|x: R::Model|
            p.base_ring().valid(x) ==> #[trigger] p.base_ring().add_model(p.base_ring().zero_model(), x)
                == x,
    ensures
        p.mul_model(a, p.one_model()) == a,
{
    let one = seq![p.base_ring().one_model()];
    if a.len() > 0 {
        let s = Seq::new(a.len(), |t: int| p.conv(a, one, t, a.len() as int));
        assert forall|t: int| 0 <= t < a.len() implies s[t] == a[t] by {
            lemma_conv_one(p, a, t, a.len() as int);
        }
        assert(s =~= a);
    } else {
        assert(a =~= Seq::<R::Model>::empty());
    }
}

/// Zero coefficients appended past `n` are trimmed away again.
proof fn lemma_trim_pad<R: UnitaryRing>(p: Polynomials<R>, g: spec_fn(int) -> R::Model, n: nat, m: nat)
    requires
        n <= m,
        forall|i: int| n <= i < m ==> #[trigger] g(i) == p.base_ring().zero_model(),
    ensures
        p.trim(Seq::new(m, g)) == p.trim(Seq::new(n, g)),
    decreases m - n,
{
    if n < m {
        assert(Seq::new(m, g).drop_last() =~= Seq::new((m - 1) as nat, g));
        lemma_trim_pad(p, g, n, (m - 1) as nat);
    }
}

/// The coefficients of a sum are the sums of the coefficients.
proof fn lemma_add_coef<R: UnitaryRing>(p: Polynomials<R>, a: Seq<R::Model>, b: Seq<R::Model>, i: int)
    requires
        0 <= i,
        p.base_ring().add_model(p.base_ring().zero_model(), p.base_ring().zero_model())
            == p.base_ring().zero_model(),
    ensures
        p.coef(p.add_model(a, b), i) == p.base_ring().add_model(p.coef(a, i), p.coef(b, i)),
{
    let n = if a.len() > b.len() { a.len() } else { b.len() };
    let s = Seq::new(n, |j: int| p.base_ring().add_model(p.coef(a, j), p.coef(b, j)));
    lemma_trim_coef(p, s);
    assert(p.coef(p.add_model(a, b), i) == p.coef(s, i));
}

/// Polynomial addition is associative over a base ring whose addition is
/// associative and has zero as identity.
pub proof fn lemma_poly_add_associates<R: UnitaryRing>(
    p: Polynomials<R>,
    a: Seq<R::Model>,
    b: Seq<R::Model>,
    c: Seq<R::Model>,
)
    requires
        p.valid(a),
        p.valid(b),
        p.valid(c),
        p.base_ring().valid(p.base_ring().zero_model()),
        forall|x: R::Model|
            p.base_ring().valid(x) ==> #[trigger] p.base_ring().add_model(p.base_ring().zero_model(), x)
                == x,
        forall|x: R::Model, y: R::Model, z: R::Model|
            p.base_ring().valid(x) && p.base_ring().valid(y) && p.base_ring().valid(z)
                ==> #[trigger] p.base_ring().add_model(p.base_ring().add_model(x, y), z)
                == p.base_ring().add_model(x, p.base_ring().add_model(y, z)),
    ensures
        p.add_model(p.add_model(a, b), c) == p.add_model(a, p.add_model(b, c)),
{
    let z = p.base_ring().zero_model();
    assert(p.base_ring().add_model(z, z) == z);
    let ab = p.add_model(a, b);
    let bc = p.add_model(b, c);
    let g = |i: int| p.base_ring().add_model(p.base_ring().add_model(p.coef(a, i), p.coef(b, i)), p.coef(c, i));
    let h = |i: int| p.base_ring().add_model(p.coef(a, i), p.base_ring().add_model(p.coef(b, i), p.coef(c, i)));
    let big = if a.len() > b.len() { if a.len() > c.len() { a.len() } else { c.len() } } else {
        if b.len() > c.len() { b.len() } else { c.len() } };
    assert forall|i: int| 0 <= i implies #[trigger] g(i) == h(i) by {
        assert(p.base_ring().valid(p.coef(a, i)));
        assert(p.base_ring().valid(p.coef(b, i)));
        assert(p.base_ring().valid(p.coef(c, i)));
    }
    // left side
    let n1 = if ab.len() > c.len() { ab.len() } else { c.len() };
    let s1 = Seq::new(n1, |i: int| p.base_ring().add_model(p.coef(ab, i), p.coef(c, i)));
    assert forall|i: int| 0 <= i < n1 implies s1[i] == g(i) by {
        lemma_add_coef(p, a, b, i);
    }
    assert(s1 =~= Seq::new(n1, g));
    lemma_trim_coef(p, Seq::new(if a.len() > b.len() { a.len() } else { b.len() }, |j: int| p.base_ring().add_model(p.coef(a, j), p.coef(b, j))));
    assert forall|i: int| n1 <= i < big implies #[trigger] g(i) == z by {
        lemma_add_coef(p, a, b, i);
    }
    lemma_trim_pad(p, g, n1, big);
    // right side
    lemma_trim_coef(p, Seq::new(if b.len() > c.len() { b.len() } else { c.len() }, |j: int| p.base_ring().add_model(p.coef(b, j), p.coef(c, j))));
    let n2 = if a.len() > bc.len() { a.len() } else { bc.len() };
    let s2 = Seq::new(n2, |i: int| p.base_ring().add_model(p.coef(a, i), p.coef(bc, i)));
    assert forall|i: int| 0 <= i < n2 implies s2[i] == h(i) by {
        lemma_add_coef(p, b, c, i);
    }
    assert(s2 =~= Seq::new(n2, h));
    assert forall|i: int| n2 <= i < big implies #[trigger] h(i) == z by {
        lemma_add_coef(p, b, c, i);
    }
    lemma_trim_pad(p, h, n2, big);
    assert(Seq::new(big, g) =~= Seq::new(big, h));
}

/// Addition and multiplication in a quotient ring commute where they do in
/// the base domain.
pub proof fn lemma_quotient_commutes<R: EuclideanDomain>(q: QuotientRing<R>, a: R::Model, b: R::Model)
    requires
        forall|x: R::Model, y: R::Model| #[trigger] q.base_ring().add_model(x, y) == q.base_ring().add_model(y, x),
        forall|x: R::Model, y: R::Model| #[trigger] q.base_ring().mul_model(x, y) == q.base_ring().mul_model(y, x),
    ensures
        q.add_model(a, b) == q.add_model(b, a),
        q.mul_model(a, b) == q.mul_model(b, a),
{
    assert(q.base_ring().add_model(a, b) == q.base_ring().add_model(b, a));
    assert(q.base_ring().mul_model(a, b) == q.base_ring().mul_model(b, a));
}

/// One is a right identity in a quotient ring whose base domain has one as
/// a right identity and leaves reduced members unchanged by division, where
/// one is itself reduced, that is, the modulus is not a unit.
pub proof fn lemma_quotient_mul_one<R: EuclideanDomain>(q: QuotientRing<R>, a: R::Model)
    requires
        q.valid(a),
        q.base_ring().valid(q.base_ring().one_model()),
        q.base_ring().reduced(q.base_ring().one_model(), q.modulus()),
        forall|x: R::Model|
            q.base_ring().valid(x) ==> #[trigger] q.base_ring().mul_model(x, q.base_ring().one_model()) == x,
        forall|x: R::Model, m: R::Model|
            q.base_ring().valid(x) && q.base_ring().reduced(x, m) ==> #[trigger] q.base_ring().rem_model(x, m)
                == x,
    ensures
        q.mul_model(a, q.one_model()) == a,
{
    assert(q.base_ring().mul_model(a, q.base_ring().one_model()) == a);
    assert(q.base_ring().rem_model(a, q.modulus()) == a);
}

/// Division by `m` leaves a member that is already a remainder of `m`
/// unchanged.
pub proof fn lemma_i32_rem_of_reduced(a: i32, m: i32)
    requires
        I32.reduced(a, m),
    ensures
        I32.rem_model(a, m) == a,
{
    if m != 0 && m != -1 {
        let n = abs(m as int);
        if a >= 0 {
            vstd::arithmetic::div_mod::lemma_fundamental_div_mod_converse(a as int, n, 0, a as int);
        } else {
            vstd::arithmetic::div_mod::lemma_fundamental_div_mod_converse(a as int, n, -1, a + n);
        }
    }
}

/// The base ring laws under which a sum may be taken in any order.
pub open spec fn additive_monoid_laws<R: UnitaryRing>(base: R) -> bool {
    &&& base.valid(base.zero_model())
    &&& forall|x: R::Model, y: R::Model|
        base.valid(x) && base.valid(y) ==> base.valid(#[trigger] base.add_model(x, y))
    &&& forall|x: R::Model| base.valid(x) ==> #[trigger] base.add_model(base.zero_model(), x) == x
    &&& forall|x: R::Model, y: R::Model| #[trigger] base.add_model(x, y) == base.add_model(y, x)
    &&& forall|x: R::Model, y: R::Model, z: R::Model|
        base.valid(x) && base.valid(y) && base.valid(z) ==> #[trigger] base.add_model(
            base.add_model(x, y),
            z,
        ) == base.add_model(x, base.add_model(y, z))
}

/// The sum of `f(0), ..., f(n - 1)`, added from the left.
pub open spec fn fsum<R: UnitaryRing>(base: R, f: spec_fn(int) -> R::Model, n: int) -> R::Model
    decreases n,
{
    if n <= 0 {
        base.zero_model()
    } else {
        base.add_model(fsum(base, f, n - 1), f(n - 1))
    }
}

proof fn lemma_fsum_valid<R: UnitaryRing>(base: R, f: spec_fn(int) -> R::Model, n: int)
    requires
        additive_monoid_laws(base),
        forall|i: int| 0 <= i < n ==> base.valid(#[trigger] f(i)),
    ensures
        base.valid(fsum(base, f, n)),
    decreases n,
{
    if n > 0 {
        lemma_fsum_valid(base, f, n - 1);
    }
}

proof fn lemma_fsum_ext<R: UnitaryRing>(base: R, f: spec_fn(int) -> R::Model, g: spec_fn(int) -> R::Model, n: int)
    requires
        forall|i: int| 0 <= i < n ==> #[trigger] f(i) == g(i),
    ensures
        fsum(base, f, n) == fsum(base, g, n),
    decreases n,
{
    if n > 0 {
        lemma_fsum_ext(base, f, g, n - 1);
    }
}

/// Zero terms past `n` do not change a sum.
proof fn lemma_fsum_zeros<R: UnitaryRing>(base: R, f: spec_fn(int) -> R::Model, n: int, m: int)
    requires
        additive_monoid_laws(base),
        0 <= n <= m,
        forall|i: int| 0 <= i < m ==> base.valid(#[trigger] f(i)),
        forall|i: int| n <= i < m ==> #[trigger] f(i) == base.zero_model(),
    ensures
        fsum(base, f, m) == fsum(base, f, n),
    decreases m - n,
{
    if n < m {
        lemma_fsum_zeros(base, f, n, m - 1);
        lemma_fsum_valid(base, f, m - 1);
        assert(f(m - 1) == base.zero_model());
        assert(base.add_model(fsum(base, f, m - 1), base.zero_model()) == base.add_model(
            base.zero_model(),
            fsum(base, f, m - 1),
        ));
    }
}

/// A sum is its first term plus the sum of the rest.
proof fn lemma_fsum_peel<R: UnitaryRing>(base: R, f: spec_fn(int) -> R::Model, n: int)
    requires
        additive_monoid_laws(base),
        0 <= n,
        forall|i: int| 0 <= i <= n ==> base.valid(#[trigger] f(i)),
    ensures
        fsum(base, f, n + 1) == base.add_model(f(0), fsum(base, |i: int| f(i + 1), n)),
    decreases n,
{
    let g = |i: int| f(i + 1);
    if n == 0 {
        assert(base.valid(f(0)));
        assert(fsum(base, f, 0) == base.zero_model());
        assert(fsum(base, f, 1) == base.add_model(base.zero_model(), f(0)));
        assert(fsum(base, f, 1) == f(0));
        assert(fsum(base, g, 0) == base.zero_model());
        assert(base.add_model(f(0), base.zero_model()) == base.add_model(base.zero_model(), f(0)));
    } else {
        lemma_fsum_peel(base, f, n - 1);
        assert forall|i: int| 0 <= i < n implies base.valid(#[trigger] g(i)) by {
            assert(base.valid(f(i + 1)));
        }
        lemma_fsum_valid(base, g, n - 1);
        assert(base.valid(f(n)));
        assert(base.valid(f(0)));
        assert(g(n - 1) == f(n));
        assert(fsum(base, f, n) == base.add_model(f(0), fsum(base, g, n - 1)));
        assert(fsum(base, f, n + 1) == base.add_model(fsum(base, f, n), f(n)));
        assert(base.add_model(base.add_model(f(0), fsum(base, g, n - 1)), f(n)) == base.add_model(
            f(0),
            base.add_model(fsum(base, g, n - 1), f(n)),
        ));
        assert(fsum(base, g, n) == base.add_model(fsum(base, g, n - 1), g(n - 1)));
    }
}

/// A sum taken in reverse order is the same sum.
proof fn lemma_fsum_reverse<R: UnitaryRing>(base: R, f: spec_fn(int) -> R::Model, n: int)
    requires
        additive_monoid_laws(base),
        0 <= n,
        forall|i: int| 0 <= i < n ==> base.valid(#[trigger] f(i)),
    ensures
        fsum(base, f, n) == fsum(base, |j: int| f(n - 1 - j), n),
    decreases n,
{
    if n > 0 {
        let g = |j: int| f(n - 1 - j);
        let h = |j: int| f(n - 2 - j);
        assert forall|i: int| 0 <= i <= n - 1 implies base.valid(#[trigger] g(i)) by {
            assert(base.valid(f(n - 1 - i)));
        }
        lemma_fsum_peel(base, g, n - 1);
        lemma_fsum_ext(base, |i: int| g(i + 1), h, n - 1);
        lemma_fsum_reverse(base, f, n - 1);
        assert(fsum(base, g, n) == base.add_model(f(n - 1), fsum(base, f, n - 1)));
    }
}

/// The terms of the coefficient of `x^t` in the product of `a` and `b`.
pub open spec fn conv_term<R: UnitaryRing>(base: R, a: Seq<R::Model>, b: Seq<R::Model>, t: int) -> spec_fn(int) -> R::Model {
    |i: int|
        if 0 <= i < a.len() && 0 <= t - i < b.len() {
            base.mul_model(a[i], b[t - i])
        } else {
            base.zero_model()
        }
}

/// Products of members are members, and multiplication commutes.
pub open spec fn commutative_mul_laws<R: UnitaryRing>(base: R) -> bool {
    &&& forall|x: R::Model, y: R::Model|
        base.valid(x) && base.valid(y) ==> base.valid(#[trigger] base.mul_model(x, y))
    &&& forall|x: R::Model, y: R::Model| #[trigger] base.mul_model(x, y) == base.mul_model(y, x)
}

proof fn lemma_conv_term_valid<R: UnitaryRing>(p: Polynomials<R>, a: Seq<R::Model>, b: Seq<R::Model>, t: int)
    requires
        additive_monoid_laws(p.base_ring()),
        commutative_mul_laws(p.base_ring()),
        p.coefs_valid(a),
        p.coefs_valid(b),
    ensures
        forall|i: int| #[trigger] p.base_ring().valid(conv_term(p.base_ring(), a, b, t)(i)),
{
    assert forall|i: int| #[trigger] p.base_ring().valid(conv_term(p.base_ring(), a, b, t)(i)) by {
        if 0 <= i < a.len() && 0 <= t - i < b.len() {
            assert(p.base_ring().valid(a[i]));
            assert(p.base_ring().valid(b[t - i]));
        }
    }
}

/// The convolution is the sum of its terms.
proof fn lemma_conv_fsum<R: UnitaryRing>(p: Polynomials<R>, a: Seq<R::Model>, b: Seq<R::Model>, t: int, n: int)
    requires
        additive_monoid_laws(p.base_ring()),
        commutative_mul_laws(p.base_ring()),
        p.coefs_valid(a),
        p.coefs_valid(b),
        0 <= n <= a.len(),
    ensures
        p.conv(a, b, t, n) == fsum(p.base_ring(), conv_term(p.base_ring(), a, b, t), n),
    decreases n,
{
    let base = p.base_ring();
    let f = conv_term(base, a, b, t);
    if n > 0 {
        lemma_conv_fsum(p, a, b, t, n - 1);
        lemma_conv_term_valid(p, a, b, t);
        lemma_fsum_valid(base, f, n - 1);
        let x = fsum(base, f, n - 1);
        assert(base.add_model(x, base.zero_model()) == base.add_model(base.zero_model(), x));
    }
}

/// The coefficient of `x^t` in `a * b` equals that in `b * a`.
proof fn lemma_conv_commutes<R: UnitaryRing>(p: Polynomials<R>, a: Seq<R::Model>, b: Seq<R::Model>, t: int)
    requires
        additive_monoid_laws(p.base_ring()),
        commutative_mul_laws(p.base_ring()),
        p.coefs_valid(a),
        p.coefs_valid(b),
        0 <= t,
    ensures
        p.conv(a, b, t, a.len() as int) == p.conv(b, a, t, b.len() as int),
{
    let base = p.base_ring();
    let f = conv_term(base, a, b, t);
    let g = conv_term(base, b, a, t);
    let k = t + 1;
    lemma_conv_fsum(p, a, b, t, a.len() as int);
    lemma_conv_fsum(p, b, a, t, b.len() as int);
    lemma_conv_term_valid(p, a, b, t);
    lemma_conv_term_valid(p, b, a, t);
    if a.len() <= k {
        lemma_fsum_zeros(base, f, a.len() as int, k);
    } else {
        lemma_fsum_zeros(base, f, k, a.len() as int);
    }
    if b.len() <= k {
        lemma_fsum_zeros(base, g, b.len() as int, k);
    } else {
        lemma_fsum_zeros(base, g, k, b.len() as int);
    }
    lemma_fsum_reverse(base, f, k);
    assert forall|j: int| 0 <= j < k implies #[trigger] g(j) == f(k - 1 - j) by {
        if 0 <= j < b.len() && 0 <= t - j < a.len() {
            assert(base.mul_model(b[j], a[t - j]) == base.mul_model(a[t - j], b[j]));
        }
    }
    lemma_fsum_ext(base, g, |j: int| f(k - 1 - j), k);
}

/// Polynomial multiplication is commutative over a base ring whose addition
/// is commutative, associative and has zero as identity, and whose
/// multiplication is commutative.
pub proof fn lemma_poly_mul_commutes<R: UnitaryRing>(p: Polynomials<R>, a: Seq<R::Model>, b: Seq<R::Model>)
    requires
        p.valid(a),
        p.valid(b),
        additive_monoid_laws(p.base_ring()),
        commutative_mul_laws(p.base_ring()),
    ensures
        p.mul_model(a, b) == p.mul_model(b, a),
{
    if a.len() > 0 && b.len() > 0 {
        let n = (a.len() + b.len() - 1) as nat;
        assert forall|t: int| 0 <= t < n implies p.conv(a, b, t, a.len() as int) == p.conv(
            b,
            a,
            t,
            b.len() as int,
        ) by {
            lemma_conv_commutes(p, a, b, t);
        }
        assert(Seq::new(n, |t: int| p.conv(a, b, t, a.len() as int)) =~= Seq::new(
            (b.len() + a.len() - 1) as nat,
            |t: int| p.conv(b, a, t, b.len() as int),
        ));
    }
}

/// Replacing `x` by its balanced remainder does not change a residue of a
/// sum or a product.
proof fn lemma_bal_congruent(x: int, y: int, m: int)
    requires
        m != 0,
    ensures
        (balanced_rem(x, m) + y) % abs(m) == (x + y) % abs(m),
        (balanced_rem(x, m) * y) % abs(m) == (x * y) % abs(m),
        -abs(m) < 2 * balanced_rem(x, m) <= abs(m),
{
    let n = abs(m);
    let q = x / n;
    let r = x % n;
    vstd::arithmetic::div_mod::lemma_fundamental_div_mod(x, n);
    vstd::arithmetic::div_mod::lemma_mod_bound(x, n);
    let k = if 2 * r > n { q + 1 } else { q };
    assert(balanced_rem(x, m) == x - n * k) by (nonlinear_arith)
        requires
            x == n * q + r,
            balanced_rem(x, m) == (if 2 * r > n { r - n } else { r }),
            k == (if 2 * r > n { q + 1 } else { q }),
    ;
    vstd::arithmetic::div_mod::lemma_mod_multiples_vanish(-k, x + y, n);
    assert(n * (-k) + (x + y) == balanced_rem(x, m) + y) by (nonlinear_arith)
        requires
            balanced_rem(x, m) == x - n * k,
    ;
    vstd::arithmetic::div_mod::lemma_mod_multiples_vanish(-k * y, x * y, n);
    assert(n * (-k * y) + x * y == balanced_rem(x, m) * y) by (nonlinear_arith)
        requires
            balanced_rem(x, m) == x - n * k,
    ;
}

/// A balanced remainder depends only on the residue.
proof fn lemma_bal_residue(x: int, y: int, m: int)
    requires
        m != 0,
        x % abs(m) == y % abs(m),
    ensures
        balanced_rem(x, m) == balanced_rem(y, m),
{
}

/// In the quotient of the integers by a modulus of at most 2^30 in absolute
/// value, addition is associative and a member plus its negation is zero.
pub proof fn lemma_i32_quotient_add_laws(q: QuotientRing<I32>, a: i32, b: i32, c: i32)
    requires
        q.wf(),
        q.valid(a),
        q.valid(b),
        q.valid(c),
        q.modulus() != 0,
        q.modulus() != -1,
        abs(q.modulus() as int) <= 0x4000_0000,
    ensures
        q.add_model(q.add_model(a, b), c) == q.add_model(a, q.add_model(b, c)),
        q.add_model(a, q.neg_model(a)) == q.zero_model(),
{
    let m = q.modulus() as int;
    let n = abs(m);
    let base = q.base_ring();
    assert(base == I32);
    let ab = q.add_model(a, b);
    let bc = q.add_model(b, c);
    assert(ab as int == balanced_rem(a + b, m));
    assert(bc as int == balanced_rem(b + c, m));
    lemma_bal_congruent(a + b, c as int, m);
    lemma_bal_congruent(b + c, a as int, m);
    assert(q.add_model(ab, c) as int == balanced_rem(ab + c, m));
    assert(q.add_model(a, bc) as int == balanced_rem(a + bc, m));
    assert((a + b) + c == (b + c) + a);
    lemma_bal_residue(ab + c, a + bc, m);
    let na = q.neg_model(a);
    assert(na as int == balanced_rem(-a, m));
    lemma_bal_congruent(-a, a as int, m);
    assert(q.add_model(a, na) as int == balanced_rem(a + na, m));
    vstd::arithmetic::div_mod::lemma_fundamental_div_mod_converse(0, n, 0, 0);
}

/// In the quotient of the integers by a modulus of at most 2^15 in absolute
/// value, multiplication is associative.
pub proof fn lemma_i32_quotient_mul_associates(q: QuotientRing<I32>, a: i32, b: i32, c: i32)
    requires
        q.wf(),
        q.valid(a),
        q.valid(b),
        q.valid(c),
        q.modulus() != 0,
        q.modulus() != -1,
        abs(q.modulus() as int) <= 0x8000,
    ensures
        q.mul_model(q.mul_model(a, b), c) == q.mul_model(a, q.mul_model(b, c)),
{
    let m = q.modulus() as int;
    let n = abs(m);
    let base = q.base_ring();
    assert(base == I32);
    assert(-0x4000_0000 <= a as int * b as int <= 0x4000_0000) by (nonlinear_arith)
        requires
            -n < 2 * a <= n,
            -n < 2 * b <= n,
            n <= 0x8000,
    ;
    assert(-0x4000_0000 <= b as int * c as int <= 0x4000_0000) by (nonlinear_arith)
        requires
            -n < 2 * b <= n,
            -n < 2 * c <= n,
            n <= 0x8000,
    ;
    lemma_crop_small(a as int * b as int);
    lemma_crop_small(b as int * c as int);
    let ab = q.mul_model(a, b);
    let bc = q.mul_model(b, c);
    lemma_bal_congruent(a as int * b as int, c as int, m);
    lemma_bal_congruent(b as int * c as int, a as int, m);
    assert(ab as int == balanced_rem(a as int * b as int, m));
    assert(bc as int == balanced_rem(b as int * c as int, m));
    assert(-0x4000_0000 <= ab as int * c as int <= 0x4000_0000) by (nonlinear_arith)
        requires
            -n < 2 * ab <= n,
            -n < 2 * c <= n,
            n <= 0x8000,
    ;
    assert(-0x4000_0000 <= a as int * bc as int <= 0x4000_0000) by (nonlinear_arith)
        requires
            -n < 2 * bc <= n,
            -n < 2 * a <= n,
            n <= 0x8000,
    ;
    lemma_crop_small(ab as int * c as int);
    lemma_crop_small(a as int * bc as int);
    assert(a as int * bc as int == bc as int * a as int) by (nonlinear_arith);
    assert((a as int * b as int) * c as int == (b as int * c as int) * a as int) by (nonlinear_arith);
    lemma_bal_residue(ab as int * c as int, a as int * bc as int, m);
}

} // verus!
