//! Specification-level rational numbers.
//!
//! A rational is modelled as an integer numerator over a positive integer
//! denominator. Two pairs denote the same rational exactly when their cross
//! products agree; `norm` picks the lowest-terms representative with a
//! positive denominator, which is the value every executable operation
//! returns.

use vstd::prelude::*;

verus! {

use vstd::arithmetic::div_mod::lemma_fundamental_div_mod;
use vstd::arithmetic::div_mod::lemma_fundamental_div_mod_converse;
use vstd::arithmetic::div_mod::lemma_mod_self_0;
use vstd::arithmetic::div_mod::lemma_mod_multiples_basic;
use vstd::arithmetic::div_mod::lemma_div_nonincreasing;
use vstd::arithmetic::div_mod::lemma_div_basics;
use vstd::arithmetic::mul::lemma_mul_is_distributive_add_other_way;
use vstd::arithmetic::mul::lemma_mul_is_distributive_sub_other_way;

/// A rational number in specification space: `num / den` with `den > 0`
/// for well-formed values.
pub ghost struct Frac {
    pub num: int,
    pub den: int,
}

/// Magnitude of an integer.
pub open spec fn abs_int(x: int) -> int {
    if x < 0 {
        -x
    } else {
        x
    }
}

/// The canonical zero rational.
pub open spec fn frac_zero() -> Frac {
    Frac { num: 0, den: 1 }
}

impl Frac {
    /// A well-formed fraction has a positive denominator.
    pub open spec fn wf(self) -> bool {
        self.den > 0
    }

    /// Both fractions denote the same rational number.
    pub open spec fn eq_val(self, other: Frac) -> bool {
        self.num * other.den == other.num * self.den
    }

    /// `self` denotes a rational no greater than `other`.
    pub open spec fn le_val(self, other: Frac) -> bool {
        self.num * other.den <= other.num * self.den
    }

    /// `self` denotes a rational strictly smaller than `other`.
    pub open spec fn lt_val(self, other: Frac) -> bool {
        self.num * other.den < other.num * self.den
    }

    /// Exact sum, on raw numerator/denominator pairs.
    pub open spec fn plus(self, other: Frac) -> Frac {
        Frac {
            num: self.num * other.den + other.num * self.den,
            den: self.den * other.den,
        }
    }

    /// Exact difference, on raw numerator/denominator pairs.
    pub open spec fn minus(self, other: Frac) -> Frac {
        Frac {
            num: self.num * other.den - other.num * self.den,
            den: self.den * other.den,
        }
    }

    /// Exact product, on raw numerator/denominator pairs.
    pub open spec fn times(self, other: Frac) -> Frac {
        Frac { num: self.num * other.num, den: self.den * other.den }
    }

    /// Absolute value.
    pub open spec fn abs_val(self) -> Frac {
        Frac { num: abs_int(self.num), den: self.den }
    }
}

/// Greatest common divisor by Euclid's recursion. For `a >= 0, b >= 1` the
/// result is a positive common divisor of `a` and `b`.
pub open spec fn gcd(a: int, b: int) -> int
    decreases b,
{
    if b <= 0 {
        a
    } else {
        gcd(b, a % b)
    }
}

/// Lowest-terms representative of a fraction, with a positive denominator.
pub open spec fn norm(f: Frac) -> Frac {
    let g = gcd(abs_int(f.num), f.den);
    Frac { num: f.num / g, den: f.den / g }
}

/// The range representable by the executable rational type: a numerator
/// whose magnitude fits in a signed 64-bit word and a positive denominator
/// that fits in an unsigned 64-bit word.
pub open spec fn fits(f: Frac) -> bool {
    &&& -(i64::MAX as int) <= f.num <= i64::MAX as int
    &&& 1 <= f.den <= u64::MAX as int
}

/// Reduce a raw fraction; keep the result only if it is representable.
pub open spec fn checked(f: Frac) -> Option<Frac> {
    let v = norm(f);
    if fits(v) {
        Some(v)
    } else {
        None
    }
}

/// Reduced, range-checked sum.
pub open spec fn plus_checked(x: Frac, y: Frac) -> Option<Frac> {
    checked(x.plus(y))
}

/// Reduced, range-checked difference.
pub open spec fn minus_checked(x: Frac, y: Frac) -> Option<Frac> {
    checked(x.minus(y))
}

/// Reduced, range-checked product.
pub open spec fn times_checked(x: Frac, y: Frac) -> Option<Frac> {
    checked(x.times(y))
}

/// Euclid's recursion yields a positive common divisor.
pub proof fn lemma_gcd_divides(a: int, b: int)
    requires
        a >= 0,
        b >= 1,
    ensures
        gcd(a, b) >= 1,
        a % gcd(a, b) == 0,
        b % gcd(a, b) == 0,
    decreases b,
{
    let r = a % b;
    assert(gcd(a, b) == gcd(b, r));
    if r == 0 {
        assert(gcd(b, 0) == b);
        lemma_mod_self_0(b);
    } else {
        lemma_gcd_divides(b, r);
        let g = gcd(b, r);
        lemma_fundamental_div_mod(a, b);
        lemma_fundamental_div_mod(b, g);
        lemma_fundamental_div_mod(r, g);
        let q = a / b;
        let qb = b / g;
        let qr = r / g;
        assert(a == (q * qb + qr) * g) by (nonlinear_arith)
            requires
                a == b * q + r,
                b == g * qb + b % g,
                r == g * qr + r % g,
                b % g == 0,
                r % g == 0,
        ;
        lemma_mod_multiples_basic(q * qb + qr, g);
    }
}

/// Euclid's recursion commutes with scaling both arguments.
pub proof fn lemma_gcd_scale(a: int, b: int, k: int)
    requires
        a >= 0,
        b >= 0,
        k >= 1,
    ensures
        gcd(k * a, k * b) == k * gcd(a, b),
    decreases b,
{
    if b == 0 {
        assert(k * b == 0);
        assert(gcd(k * a, 0) == k * a);
    } else {
        let r = a % b;
        lemma_fundamental_div_mod(a, b);
        let q = a / b;
        assert(k * a == q * (k * b) + k * r) by (nonlinear_arith)
            requires
                a == b * q + r,
        ;
        assert(0 <= k * r < k * b) by (nonlinear_arith)
            requires
                0 <= r < b,
                k >= 1,
        ;
        lemma_fundamental_div_mod_converse(k * a, k * b, q, k * r);
        assert((k * a) % (k * b) == k * r);
        assert(gcd(k * a, k * b) == gcd(k * b, k * r)) by {
            assert(k * b >= 1) by (nonlinear_arith)
                requires
                    b >= 1,
                    k >= 1,
            ;
        }
        lemma_gcd_scale(b, r, k);
        assert(gcd(a, b) == gcd(b, r));
    }
}

/// Reduction keeps the denominator positive, never grows either component,
/// divides both exactly, and denotes the same rational.
pub proof fn lemma_norm_fidelity(f: Frac)
    requires
        f.wf(),
    ensures
        norm(f).wf(),
        norm(f).eq_val(f),
        f.eq_val(norm(f)),
        abs_int(norm(f).num) <= abs_int(f.num),
        norm(f).den <= f.den,
        f.num == gcd(abs_int(f.num), f.den) * norm(f).num,
        f.den == gcd(abs_int(f.num), f.den) * norm(f).den,
{
    let n = f.num;
    let d = f.den;
    let g = gcd(abs_int(n), d);
    lemma_gcd_divides(abs_int(n), d);
    lemma_fundamental_div_mod(d, g);
    assert(d == g * (d / g));
    // The numerator is divided exactly, whatever its sign.
    if n >= 0 {
        lemma_fundamental_div_mod(n, g);
        assert(n == g * (n / g));
    } else {
        let m = -n;
        lemma_fundamental_div_mod(m, g);
        assert(m == g * (m / g));
        assert(n == (-(m / g)) * g + 0) by (nonlinear_arith)
            requires
                m == g * (m / g),
                n == -m,
        ;
        lemma_fundamental_div_mod_converse(n, g, -(m / g), 0);
        assert(n / g == -(m / g));
        assert(n == g * (n / g)) by (nonlinear_arith)
            requires
                m == g * (m / g),
                n == -m,
                n / g == -(m / g),
        ;
    }
    let n2 = n / g;
    let d2 = d / g;
    assert(d2 >= 1) by (nonlinear_arith)
        requires
            d == g * d2,
            d >= 1,
            g >= 1,
    ;
    assert(n2 * d == n * d2) by (nonlinear_arith)
        requires
            n == g * n2,
            d == g * d2,
    ;
    // Magnitudes do not grow under division by a positive integer.
    if n >= 0 {
        lemma_div_nonincreasing(n, g);
        assert(n2 >= 0) by (nonlinear_arith)
            requires
                n == g * n2,
                n >= 0,
                g >= 1,
        ;
    } else {
        let m = -n;
        lemma_div_nonincreasing(m, g);
        assert(n2 <= 0 && -n2 <= m) by (nonlinear_arith)
            requires
                n == g * n2,
                n < 0,
                g >= 1,
                m == -n,
                m / g <= m,
                n2 == -(m / g),
        ;
    }
    lemma_div_nonincreasing(d, g);
}

/// Reduction is invariant under scaling both components.
pub proof fn lemma_norm_scale(f: Frac, k: int)
    requires
        f.wf(),
        k >= 1,
    ensures
        norm(Frac { num: k * f.num, den: k * f.den }) == norm(f),
{
    let n = f.num;
    let d = f.den;
    let g = gcd(abs_int(n), d);
    lemma_gcd_divides(abs_int(n), d);
    assert(abs_int(k * n) == k * abs_int(n)) by (nonlinear_arith)
        requires
            k >= 1,
    ;
    lemma_gcd_scale(abs_int(n), d, k);
    assert(gcd(abs_int(k * n), k * d) == k * g);
    lemma_norm_fidelity(f);
    let n2 = norm(f).num;
    let d2 = norm(f).den;
    // k*n == (k*g) * n2 and k*d == (k*g) * d2, both divisions exact.
    assert(k * n == n2 * (k * g) + 0 && k * d == d2 * (k * g) + 0) by (nonlinear_arith)
        requires
            n == g * n2,
            d == g * d2,
    ;
    assert(k * g >= 1) by (nonlinear_arith)
        requires
            k >= 1,
            g >= 1,
    ;
    lemma_fundamental_div_mod_converse(k * n, k * g, n2, 0);
    lemma_fundamental_div_mod_converse(k * d, k * g, d2, 0);
    assert((k * n) / (k * g) == n2);
    assert((k * d) / (k * g) == d2);
}

/// Reduction identifies all representations of one rational: equal values
/// reduce to the same lowest-terms pair.
pub proof fn lemma_norm_congruent(x: Frac, y: Frac)
    requires
        x.wf(),
        y.wf(),
        x.eq_val(y),
    ensures
        norm(x) == norm(y),
{
    let xs = Frac { num: y.den * x.num, den: y.den * x.den };
    let ys = Frac { num: x.den * y.num, den: x.den * y.den };
    lemma_norm_scale(x, y.den);
    lemma_norm_scale(y, x.den);
    assert(xs == ys) by (nonlinear_arith)
        requires
            x.num * y.den == y.num * x.den,
            xs == (Frac { num: y.den * x.num, den: y.den * x.den }),
            ys == (Frac { num: x.den * y.num, den: x.den * y.den }),
    ;
}

/// Integers over the unit denominator are already in lowest terms.
pub proof fn lemma_norm_unit_den(n: int)
    ensures
        norm(Frac { num: n, den: 1 }) == (Frac { num: n, den: 1 }),
{
    let a = abs_int(n);
    assert(a % 1 == 0);
    assert(gcd(a, 1) == gcd(1, a % 1));
    assert(gcd(1, 0) == 1);
    lemma_div_basics(n);
    lemma_div_basics(1);
}

/// A zero numerator reduces to the canonical zero.
pub proof fn lemma_norm_zero(d: int)
    requires
        d >= 1,
    ensures
        norm(Frac { num: 0, den: d }) == frac_zero(),
{
    assert(gcd(0, d) == gcd(d, 0int % d));
    assert(0int % d == 0);
    assert(gcd(d, 0) == d);
    lemma_div_basics(d);
}

/// Reduction is idempotent.
pub proof fn lemma_norm_idempotent(f: Frac)
    requires
        f.wf(),
    ensures
        norm(norm(f)) == norm(f),
{
    lemma_norm_fidelity(f);
    lemma_norm_congruent(norm(f), f);
}

/// Denoting the same rational is transitive.
pub proof fn lemma_eq_val_trans(x: Frac, y: Frac, z: Frac)
    requires
        x.wf(),
        y.wf(),
        z.wf(),
        x.eq_val(y),
        y.eq_val(z),
    ensures
        x.eq_val(z),
{
    assert(x.num * z.den == z.num * x.den) by (nonlinear_arith)
        requires
            x.num * y.den == y.num * x.den,
            y.num * z.den == z.num * y.den,
            y.den > 0,
    ;
}

/// Order on rational values is transitive.
pub proof fn lemma_le_val_trans(x: Frac, y: Frac, z: Frac)
    requires
        x.wf(),
        y.wf(),
        z.wf(),
        x.le_val(y),
        y.le_val(z),
    ensures
        x.le_val(z),
{
    assert(x.num * z.den <= z.num * x.den) by (nonlinear_arith)
        requires
            x.num * y.den <= y.num * x.den,
            y.num * z.den <= z.num * y.den,
            x.den > 0,
            y.den > 0,
            z.den > 0,
    ;
}

/// Multiplying both sides by one positive rational keeps the order.
pub proof fn lemma_le_scale(x: Frac, y: Frac, k: Frac)
    requires
        x.wf(),
        y.wf(),
        k.wf(),
        k.num > 0,
        x.le_val(y),
    ensures
        x.times(k).le_val(y.times(k)),
{
    assert((x.num * k.num) * (y.den * k.den) <= (y.num * k.num) * (x.den
        * k.den)) by (nonlinear_arith)
        requires
            x.num * y.den <= y.num * x.den,
            k.num > 0,
            k.den > 0,
            x.den > 0,
            y.den > 0,
    ;
}

/// Sums of equal values are equal values.
pub proof fn lemma_plus_congruent(x: Frac, y: Frac, x2: Frac, y2: Frac)
    requires
        x.wf(),
        y.wf(),
        x2.wf(),
        y2.wf(),
        x.eq_val(x2),
        y.eq_val(y2),
    ensures
        x.plus(y).eq_val(x2.plus(y2)),
{
    let xn = x.num;
    let xd = x.den;
    let yn = y.num;
    let yd = y.den;
    let un = x2.num;
    let ud = x2.den;
    let vn = y2.num;
    let vd = y2.den;
    lemma_mul_is_distributive_add_other_way(ud * vd, xn * yd, yn * xd);
    lemma_mul_is_distributive_add_other_way(xd * yd, un * vd, vn * ud);
    assert((xn * yd) * (ud * vd) == (xn * ud) * (yd * vd)) by (nonlinear_arith);
    assert((yn * xd) * (ud * vd) == (yn * vd) * (xd * ud)) by (nonlinear_arith);
    assert((un * vd) * (xd * yd) == (un * xd) * (yd * vd)) by (nonlinear_arith);
    assert((vn * ud) * (xd * yd) == (vn * yd) * (xd * ud)) by (nonlinear_arith);
    assert((xn * ud) * (yd * vd) == (un * xd) * (yd * vd)) by (nonlinear_arith)
        requires
            xn * ud == un * xd,
    ;
    assert((yn * vd) * (xd * ud) == (vn * yd) * (xd * ud)) by (nonlinear_arith)
        requires
            yn * vd == vn * yd,
    ;
}

/// Differences of equal values are equal values.
pub proof fn lemma_minus_congruent(x: Frac, y: Frac, x2: Frac, y2: Frac)
    requires
        x.wf(),
        y.wf(),
        x2.wf(),
        y2.wf(),
        x.eq_val(x2),
        y.eq_val(y2),
    ensures
        x.minus(y).eq_val(x2.minus(y2)),
{
    let xn = x.num;
    let xd = x.den;
    let yn = y.num;
    let yd = y.den;
    let un = x2.num;
    let ud = x2.den;
    let vn = y2.num;
    let vd = y2.den;
    lemma_mul_is_distributive_sub_other_way(ud * vd, xn * yd, yn * xd);
    lemma_mul_is_distributive_sub_other_way(xd * yd, un * vd, vn * ud);
    assert((xn * yd) * (ud * vd) == (xn * ud) * (yd * vd)) by (nonlinear_arith);
    assert((yn * xd) * (ud * vd) == (yn * vd) * (xd * ud)) by (nonlinear_arith);
    assert((un * vd) * (xd * yd) == (un * xd) * (yd * vd)) by (nonlinear_arith);
    assert((vn * ud) * (xd * yd) == (vn * yd) * (xd * ud)) by (nonlinear_arith);
    assert((xn * ud) * (yd * vd) == (un * xd) * (yd * vd)) by (nonlinear_arith)
        requires
            xn * ud == un * xd,
    ;
    assert((yn * vd) * (xd * ud) == (vn * yd) * (xd * ud)) by (nonlinear_arith)
        requires
            yn * vd == vn * yd,
    ;
}

/// Products of equal values are equal values.
pub proof fn lemma_times_congruent(x: Frac, y: Frac, x2: Frac, y2: Frac)
    requires
        x.wf(),
        y.wf(),
        x2.wf(),
        y2.wf(),
        x.eq_val(x2),
        y.eq_val(y2),
    ensures
        x.times(y).eq_val(x2.times(y2)),
{
    assert((x.num * y.num) * (x2.den * y2.den) == (x2.num * y2.num) * (x.den
        * y.den)) by (nonlinear_arith)
        requires
            x.num * x2.den == x2.num * x.den,
            y.num * y2.den == y2.num * y.den,
    ;
}

/// Absolute values of equal values are equal values.
pub proof fn lemma_abs_congruent(x: Frac, x2: Frac)
    requires
        x.wf(),
        x2.wf(),
        x.eq_val(x2),
    ensures
        x.abs_val().eq_val(x2.abs_val()),
{
    assert(abs_int(x.num) * x2.den == abs_int(x2.num) * x.den) by (nonlinear_arith)
        requires
            x.num * x2.den == x2.num * x.den,
            x.den > 0,
            x2.den > 0,
            abs_int(x.num) == (if x.num < 0 {
                -x.num
            } else {
                x.num
            }),
            abs_int(x2.num) == (if x2.num < 0 {
                -x2.num
            } else {
                x2.num
            }),
    ;
}

/// Order does not depend on the representative chosen.
pub proof fn lemma_le_congruent(x: Frac, y: Frac, x2: Frac, y2: Frac)
    requires
        x.wf(),
        y.wf(),
        x2.wf(),
        y2.wf(),
        x.eq_val(x2),
        y.eq_val(y2),
    ensures
        x.le_val(y) == x2.le_val(y2),
        x.lt_val(y) == x2.lt_val(y2),
{
    if x.le_val(y) {
        assert(x2.num * y2.den <= y2.num * x2.den) by (nonlinear_arith)
            requires
                x.num * y.den <= y.num * x.den,
                x.num * x2.den == x2.num * x.den,
                y.num * y2.den == y2.num * y.den,
                x.den > 0,
                y.den > 0,
                x2.den > 0,
                y2.den > 0,
        ;
    }
    if x2.le_val(y2) {
        assert(x.num * y.den <= y.num * x.den) by (nonlinear_arith)
            requires
                x2.num * y2.den <= y2.num * x2.den,
                x.num * x2.den == x2.num * x.den,
                y.num * y2.den == y2.num * y.den,
                x.den > 0,
                y.den > 0,
                x2.den > 0,
                y2.den > 0,
        ;
    }
    if x.lt_val(y) {
        assert(x2.num * y2.den < y2.num * x2.den) by (nonlinear_arith)
            requires
                x.num * y.den < y.num * x.den,
                x.num * x2.den == x2.num * x.den,
                y.num * y2.den == y2.num * y.den,
                x.den > 0,
                y.den > 0,
                x2.den > 0,
                y2.den > 0,
        ;
    }
    if x2.lt_val(y2) {
        assert(x.num * y.den < y.num * x.den) by (nonlinear_arith)
            requires
                x2.num * y2.den < y2.num * x2.den,
                x.num * x2.den == x2.num * x.den,
                y.num * y2.den == y2.num * y.den,
                x.den > 0,
                y.den > 0,
                x2.den > 0,
                y2.den > 0,
        ;
    }
}

} // verus!
