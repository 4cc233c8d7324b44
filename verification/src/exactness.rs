//! Exactness of Simpson's rule on cubic polynomials.
//!
//! The engine's acceptance value on one panel is the Simpson expression
//! `((v-u)/6)·(p(u) + 4·p(mid) + p(v))`. For any polynomial of degree at
//! most three this expression equals the exact integral of the polynomial
//! over `[u, v]` — the reason the adaptive engine integrates cubics with
//! a single refinement call. This module states and proves that identity
//! over raw rational arithmetic.

use vstd::prelude::*;

verus! {

use crate::frac::Frac;
use crate::engine::half_frac;
use crate::engine::sixth_frac;
use crate::engine::four_frac;
use crate::rules::third_frac;

/// One quarter.
pub open spec fn quarter_frac() -> Frac {
    Frac { num: 1, den: 4 }
}

/// The midpoint of `[u, v]`, as the engine forms it.
pub open spec fn mid_raw(u: Frac, v: Frac) -> Frac {
    (u.plus(v)).times(half_frac())
}

/// The one-panel Simpson expression over `[u, v]` from the three sampled
/// values, as the engine forms it.
pub open spec fn simpson_raw(u: Frac, v: Frac, pu: Frac, pm: Frac, pv: Frac) -> Frac {
    ((v.minus(u)).times(sixth_frac())).times((pu.plus(four_frac().times(pm))).plus(pv))
}

/// The cubic `c3·x³ + c2·x² + c1·x + c0`, evaluated by Horner steps.
pub open spec fn cubic_at(c0: Frac, c1: Frac, c2: Frac, c3: Frac, x: Frac) -> Frac {
    ((((c3.times(x)).plus(c2)).times(x).plus(c1)).times(x)).plus(c0)
}

/// An antiderivative of the cubic:
/// `x·(c0 + x·(c1/2 + x·(c2/3 + x·(c3/4))))`.
pub open spec fn cubic_antideriv(c0: Frac, c1: Frac, c2: Frac, c3: Frac, x: Frac) -> Frac {
    x.times(
        c0.plus(
            x.times(
                (c1.times(half_frac())).plus(
                    x.times((c2.times(third_frac())).plus(x.times(c3.times(quarter_frac())))),
                ),
            ),
        ),
    )
}

/// The exact integral of the cubic over `[u, v]`.
pub open spec fn cubic_integral(c0: Frac, c1: Frac, c2: Frac, c3: Frac, u: Frac, v: Frac) -> Frac {
    (cubic_antideriv(c0, c1, c2, c3, v)).minus(cubic_antideriv(c0, c1, c2, c3, u))
}

/// Numerator polynomial of the cubic at `x = X/W` with coefficients over
/// a common denominator: the value is `g³·pn / (g⁴·W³)`.
pub open spec fn pn(k0: int, k1: int, k2: int, k3: int, xx: int, ww: int) -> int {
    k3 * ((xx * xx) * xx) + k2 * (ww * (xx * xx)) + k1 * ((ww * ww) * xx) + k0 * ((ww * ww) * ww)
}

/// Numerator polynomial of the antiderivative at `x = X/W`: the value is
/// `g³·X·fnum / (24·g⁴·W⁴)`.
pub open spec fn fnum(k0: int, k1: int, k2: int, k3: int, xx: int, ww: int) -> int {
    24 * k0 * ((ww * ww) * ww) + 12 * k1 * ((ww * ww) * xx) + 8 * k2 * (ww * (xx * xx)) + 6 * k3
        * ((xx * xx) * xx)
}

/// The Horner evaluation of the cubic factors through `pn`.
pub proof fn lemma_cubic_at_factored(k0: int, k1: int, k2: int, k3: int, g: int, x: Frac)
    ensures
        cubic_at(
            Frac { num: k0, den: g },
            Frac { num: k1, den: g },
            Frac { num: k2, den: g },
            Frac { num: k3, den: g },
            x,
        ).num == ((g * g) * g) * pn(k0, k1, k2, k3, x.num, x.den),
        cubic_at(
            Frac { num: k0, den: g },
            Frac { num: k1, den: g },
            Frac { num: k2, den: g },
            Frac { num: k3, den: g },
            x,
        ).den == (((g * g) * g) * g) * (((x.den * x.den) * x.den)),
{
    let xn = x.num;
    let xd = x.den;
    let p = cubic_at(
        Frac { num: k0, den: g },
        Frac { num: k1, den: g },
        Frac { num: k2, den: g },
        Frac { num: k3, den: g },
        x,
    );
    // The literal components of the six Horner steps.
    let t1n = k3 * xn;
    let t1d = g * xd;
    let t2n = t1n * g + k2 * t1d;
    let t2d = t1d * g;
    let t3n = t2n * xn;
    let t3d = t2d * xd;
    let t4n = t3n * g + k1 * t3d;
    let t4d = t3d * g;
    let t5n = t4n * xn;
    let t5d = t4d * xd;
    let t6n = t5n * g + k0 * t5d;
    let t6d = t5d * g;
    assert(p.num == t6n && p.den == t6d);
    let aa = k3 * xn + k2 * xd;
    let bb = aa * xn + k1 * (xd * xd);
    assert(t2n == g * aa) by (nonlinear_arith)
        requires
            t2n == (k3 * xn) * g + k2 * (g * xd),
            aa == k3 * xn + k2 * xd,
    ;
    assert(t3n == g * (aa * xn)) by (nonlinear_arith)
        requires
            t3n == t2n * xn,
            t2n == g * aa,
    ;
    assert(t3d == ((g * g) * (xd * xd))) by (nonlinear_arith)
        requires
            t3d == ((g * xd) * g) * xd,
    ;
    assert(t4n == (g * g) * bb) by (nonlinear_arith)
        requires
            t4n == t3n * g + k1 * t3d,
            t3n == g * (aa * xn),
            t3d == ((g * g) * (xd * xd)),
            bb == aa * xn + k1 * (xd * xd),
    ;
    assert(t5n == (g * g) * (bb * xn)) by (nonlinear_arith)
        requires
            t5n == t4n * xn,
            t4n == (g * g) * bb,
    ;
    assert(t5d == ((g * g) * g) * ((xd * xd) * xd)) by (nonlinear_arith)
        requires
            t5d == ((((g * xd) * g) * xd) * g) * xd,
    ;
    assert(t6n == ((g * g) * g) * (bb * xn + k0 * ((xd * xd) * xd))) by (nonlinear_arith)
        requires
            t6n == t5n * g + k0 * t5d,
            t5n == (g * g) * (bb * xn),
            t5d == ((g * g) * g) * ((xd * xd) * xd),
    ;
    lemma_pn_nested(k0, k1, k2, k3, xn, xd);
    assert(pn(k0, k1, k2, k3, xn, xd) == bb * xn + k0 * ((xd * xd) * xd));
    assert(t6d == (((g * g) * g) * g) * (((xd * xd) * xd))) by (nonlinear_arith)
        requires
            t6d == (((((g * xd) * g) * xd) * g) * xd) * g,
    ;
}

/// The antiderivative evaluation factors through `fnum`.
pub proof fn lemma_antideriv_factored(k0: int, k1: int, k2: int, k3: int, g: int, x: Frac)
    ensures
        cubic_antideriv(
            Frac { num: k0, den: g },
            Frac { num: k1, den: g },
            Frac { num: k2, den: g },
            Frac { num: k3, den: g },
            x,
        ).num == ((g * g) * g) * (x.num * fnum(k0, k1, k2, k3, x.num, x.den)),
        cubic_antideriv(
            Frac { num: k0, den: g },
            Frac { num: k1, den: g },
            Frac { num: k2, den: g },
            Frac { num: k3, den: g },
            x,
        ).den == 24 * ((((g * g) * g) * g) * (((x.den * x.den) * x.den) * x.den)),
{
    let xn = x.num;
    let xd = x.den;
    let fv = cubic_antideriv(
        Frac { num: k0, den: g },
        Frac { num: k1, den: g },
        Frac { num: k2, den: g },
        Frac { num: k3, den: g },
        x,
    );
    // Literal components, innermost first.
    let a3n = k3 * 1;
    let a3d = g * 4;
    let b3n = xn * a3n;
    let b3d = xd * a3d;
    let a2n = (k2 * 1) * b3d + b3n * (g * 3);
    let a2d = (g * 3) * b3d;
    let b2n = xn * a2n;
    let b2d = xd * a2d;
    let a1n = (k1 * 1) * b2d + b2n * (g * 2);
    let a1d = (g * 2) * b2d;
    let b1n = xn * a1n;
    let b1d = xd * a1d;
    let a0n = k0 * b1d + b1n * g;
    let a0d = g * b1d;
    let fn_ = xn * a0n;
    let fd = xd * a0d;
    assert(fv.num == fn_ && fv.den == fd);
    assert(a2n == g * (4 * k2 * xd + 3 * k3 * xn)) by (nonlinear_arith)
        requires
            a2n == (k2 * 1) * b3d + b3n * (g * 3),
            b3d == xd * (g * 4),
            b3n == xn * (k3 * 1),
    ;
    let cc = 4 * k2 * xd + 3 * k3 * xn;
    let ee = 12 * k1 * (xd * xd) + 2 * (xn * cc);
    assert(b2d == (g * g) * (12 * (xd * xd))) by (nonlinear_arith)
        requires
            b2d == xd * ((g * 3) * (xd * (g * 4))),
    ;
    assert(a1n == (g * g) * ee) by (nonlinear_arith)
        requires
            a1n == (k1 * 1) * b2d + b2n * (g * 2),
            b2d == (g * g) * (12 * (xd * xd)),
            b2n == xn * a2n,
            a2n == g * cc,
            ee == 12 * k1 * (xd * xd) + 2 * (xn * cc),
    ;
    assert(b1d == ((g * g) * g) * (24 * ((xd * xd) * xd))) by (nonlinear_arith)
        requires
            b1d == xd * ((g * 2) * (xd * ((g * 3) * (xd * (g * 4))))),
    ;
    assert(k0 * b1d == ((g * g) * g) * (24 * k0 * ((xd * xd) * xd))) by (nonlinear_arith)
        requires
            b1d == ((g * g) * g) * (24 * ((xd * xd) * xd)),
    ;
    assert(b1n * g == ((g * g) * g) * (xn * ee)) by (nonlinear_arith)
        requires
            b1n == xn * a1n,
            a1n == (g * g) * ee,
    ;
    vstd::arithmetic::mul::lemma_mul_is_distributive_add(
        (g * g) * g,
        24 * k0 * ((xd * xd) * xd),
        xn * ee,
    );
    assert(a0n == ((g * g) * g) * (24 * k0 * ((xd * xd) * xd) + xn * ee));
    lemma_fnum_nested(k0, k1, k2, k3, xn, xd);
    assert(fnum(k0, k1, k2, k3, xn, xd) == 24 * k0 * ((xd * xd) * xd) + xn * ee);
    assert(fn_ == ((g * g) * g) * (xn * fnum(k0, k1, k2, k3, xn, xd))) by (nonlinear_arith)
        requires
            fn_ == xn * a0n,
            a0n == ((g * g) * g) * (24 * k0 * ((xd * xd) * xd) + xn * ee),
            fnum(k0, k1, k2, k3, xn, xd) == 24 * k0 * ((xd * xd) * xd) + xn * ee,
    ;
    assert(fd == 24 * ((((g * g) * g) * g) * (((xd * xd) * xd) * xd))) by (nonlinear_arith)
        requires
            fd == xd * (g * (xd * ((g * 2) * (xd * ((g * 3) * (xd * (g * 4))))))),
    ;
}

/// The Horner-shaped cubic numerator equals its row expansion.
proof fn lemma_pn_nested(k0: int, k1: int, k2: int, k3: int, xn: int, xd: int)
    ensures
        ((k3 * xn + k2 * xd) * xn + k1 * (xd * xd)) * xn + k0 * ((xd * xd) * xd) == k3 * ((xn * xn)
            * xn) + k2 * (xd * (xn * xn)) + k1 * ((xd * xd) * xn) + k0 * ((xd * xd) * xd),
{
    vstd::arithmetic::mul::lemma_mul_is_distributive_add_other_way(xn, k3 * xn, k2 * xd);
    assert((k3 * xn) * xn == k3 * (xn * xn)) by (nonlinear_arith);
    assert((k2 * xd) * xn == k2 * (xd * xn)) by (nonlinear_arith);
    let hh = k3 * (xn * xn) + k2 * (xd * xn);
    vstd::arithmetic::mul::lemma_mul_is_distributive_add_other_way(xn, hh, k1 * (xd * xd));
    assert((k1 * (xd * xd)) * xn == k1 * ((xd * xd) * xn)) by (nonlinear_arith);
    vstd::arithmetic::mul::lemma_mul_is_distributive_add_other_way(
        xn,
        k3 * (xn * xn),
        k2 * (xd * xn),
    );
    assert((k3 * (xn * xn)) * xn == k3 * ((xn * xn) * xn)) by (nonlinear_arith);
    assert((k2 * (xd * xn)) * xn == k2 * (xd * (xn * xn))) by (nonlinear_arith);
}

/// The nested antiderivative numerator equals its row expansion.
proof fn lemma_fnum_nested(k0: int, k1: int, k2: int, k3: int, xn: int, xd: int)
    by (nonlinear_arith)
    ensures
        24 * k0 * ((xd * xd) * xd) + xn * (12 * k1 * (xd * xd) + 2 * (xn * (4 * k2 * xd + 3 * k3
            * xn))) == 24 * k0 * ((xd * xd) * xd) + 12 * k1 * ((xd * xd) * xn) + 8 * k2 * (xd * (xn
            * xn)) + 6 * k3 * ((xn * xn) * xn),
{
}

/// Scaling a point scales each degree-three row by the cube.
proof fn lemma_row_scale(a: int, b: int, e: int)
    by (nonlinear_arith)
    ensures
        ((a * e) * (a * e)) * (a * e) == ((e * e) * e) * ((a * a) * a),
        (b * e) * ((a * e) * (a * e)) == ((e * e) * e) * (b * (a * a)),
        ((b * e) * (b * e)) * (a * e) == ((e * e) * e) * ((b * b) * a),
        ((b * e) * (b * e)) * (b * e) == ((e * e) * e) * ((b * b) * b),
{
}

/// `pn` is homogeneous of degree three in its point.
pub proof fn lemma_pn_scaled(k0: int, k1: int, k2: int, k3: int, a: int, b: int, e: int)
    ensures
        pn(k0, k1, k2, k3, a * e, b * e) == ((e * e) * e) * pn(k0, k1, k2, k3, a, b),
{
    lemma_row_scale(a, b, e);
    let g3 = (e * e) * e;
    assert(k3 * (g3 * ((a * a) * a)) == g3 * (k3 * ((a * a) * a))) by (nonlinear_arith);
    assert(k2 * (g3 * (b * (a * a))) == g3 * (k2 * (b * (a * a)))) by (nonlinear_arith);
    assert(k1 * (g3 * ((b * b) * a)) == g3 * (k1 * ((b * b) * a))) by (nonlinear_arith);
    assert(k0 * (g3 * ((b * b) * b)) == g3 * (k0 * ((b * b) * b))) by (nonlinear_arith);
    vstd::arithmetic::mul::lemma_mul_is_distributive_add(
        g3,
        k3 * ((a * a) * a),
        k2 * (b * (a * a)),
    );
    vstd::arithmetic::mul::lemma_mul_is_distributive_add(
        g3,
        k3 * ((a * a) * a) + k2 * (b * (a * a)),
        k1 * ((b * b) * a),
    );
    vstd::arithmetic::mul::lemma_mul_is_distributive_add(
        g3,
        k3 * ((a * a) * a) + k2 * (b * (a * a)) + k1 * ((b * b) * a),
        k0 * ((b * b) * b),
    );
}

/// `fnum` is homogeneous of degree three in its point.
pub proof fn lemma_fnum_scaled(k0: int, k1: int, k2: int, k3: int, a: int, b: int, e: int)
    ensures
        fnum(k0, k1, k2, k3, a * e, b * e) == ((e * e) * e) * fnum(k0, k1, k2, k3, a, b),
{
    lemma_row_scale(a, b, e);
    let g3 = (e * e) * e;
    assert(6 * k3 * (g3 * ((a * a) * a)) == g3 * (6 * k3 * ((a * a) * a))) by (nonlinear_arith);
    assert(8 * k2 * (g3 * (b * (a * a))) == g3 * (8 * k2 * (b * (a * a)))) by (nonlinear_arith);
    assert(12 * k1 * (g3 * ((b * b) * a)) == g3 * (12 * k1 * ((b * b) * a))) by (nonlinear_arith);
    assert(24 * k0 * (g3 * ((b * b) * b)) == g3 * (24 * k0 * ((b * b) * b))) by (nonlinear_arith);
    vstd::arithmetic::mul::lemma_mul_is_distributive_add(
        g3,
        24 * k0 * ((b * b) * b),
        12 * k1 * ((b * b) * a),
    );
    vstd::arithmetic::mul::lemma_mul_is_distributive_add(
        g3,
        24 * k0 * ((b * b) * b) + 12 * k1 * ((b * b) * a),
        8 * k2 * (b * (a * a)),
    );
    vstd::arithmetic::mul::lemma_mul_is_distributive_add(
        g3,
        24 * k0 * ((b * b) * b) + 12 * k1 * ((b * b) * a) + 8 * k2 * (b * (a * a)),
        6 * k3 * ((a * a) * a),
    );
}


/// Cubic row of the telescoping identity.
proof fn lemma_left_row3(k3: int, x: int, y: int)
    ensures
        (y - x) * (8 * (k3 * ((x * x) * x)) + 4 * (k3 * (((x + y) * (x + y)) * (x + y))) + 8 * (k3
            * ((y * y) * y))) == k3 * (12 * (((y * y) * (y * y)) - ((x * x) * (x * x)))),
{
    let ss = 8 * ((x * x) * x) + 4 * (((x + y) * (x + y)) * (x + y)) + 8 * ((y * y) * y);
    assert((y - x) * ss == 12 * (((y * y) * (y * y)) - ((x * x) * (x * x)))) by (nonlinear_arith)
        requires
            ss == 8 * ((x * x) * x) + 4 * (((x + y) * (x + y)) * (x + y)) + 8 * ((y * y) * y),
    ;
    assert(8 * (k3 * ((x * x) * x)) == k3 * (8 * ((x * x) * x))) by (nonlinear_arith);
    assert(4 * (k3 * (((x + y) * (x + y)) * (x + y))) == k3 * (4 * (((x + y) * (x + y)) * (x
        + y)))) by (nonlinear_arith);
    assert(8 * (k3 * ((y * y) * y)) == k3 * (8 * ((y * y) * y))) by (nonlinear_arith);
    vstd::arithmetic::mul::lemma_mul_is_distributive_add(
        k3,
        8 * ((x * x) * x),
        4 * (((x + y) * (x + y)) * (x + y)),
    );
    vstd::arithmetic::mul::lemma_mul_is_distributive_add(
        k3,
        8 * ((x * x) * x) + 4 * (((x + y) * (x + y)) * (x + y)),
        8 * ((y * y) * y),
    );
    assert((y - x) * (k3 * ss) == k3 * ((y - x) * ss)) by (nonlinear_arith);
}

/// Quadratic row of the telescoping identity.
proof fn lemma_left_row2(k2: int, x: int, y: int, z: int)
    ensures
        (y - x) * (8 * (k2 * (z * (x * x))) + 4 * (k2 * ((2 * z) * ((x + y) * (x + y)))) + 8 * (k2
            * (z * (y * y)))) == k2 * (z * (16 * (((y * y) * y) - ((x * x) * x)))),
{
    let ss = 8 * (k2 * (x * x)) + 8 * (k2 * ((x + y) * (x + y))) + 8 * (k2 * (y * y));
    assert((y - x) * ss == k2 * (16 * (((y * y) * y) - ((x * x) * x)))) by (nonlinear_arith)
        requires
            ss == 8 * (k2 * (x * x)) + 8 * (k2 * ((x + y) * (x + y))) + 8 * (k2 * (y * y)),
    ;
    assert(8 * (k2 * (z * (x * x))) == z * (8 * (k2 * (x * x)))) by (nonlinear_arith);
    assert(4 * (k2 * ((2 * z) * ((x + y) * (x + y)))) == z * (8 * (k2 * ((x + y) * (x
        + y))))) by (nonlinear_arith);
    assert(8 * (k2 * (z * (y * y))) == z * (8 * (k2 * (y * y)))) by (nonlinear_arith);
    vstd::arithmetic::mul::lemma_mul_is_distributive_add(
        z,
        8 * (k2 * (x * x)),
        8 * (k2 * ((x + y) * (x + y))),
    );
    vstd::arithmetic::mul::lemma_mul_is_distributive_add(
        z,
        8 * (k2 * (x * x)) + 8 * (k2 * ((x + y) * (x + y))),
        8 * (k2 * (y * y)),
    );
    assert((y - x) * (z * ss) == z * ((y - x) * ss)) by (nonlinear_arith);
    assert(z * (k2 * (16 * (((y * y) * y) - ((x * x) * x)))) == k2 * (z * (16 * (((y * y) * y) - ((
    x * x) * x))))) by (nonlinear_arith);
}

/// Linear row of the telescoping identity.
proof fn lemma_left_row1(k1: int, x: int, y: int, z: int)
    ensures
        (y - x) * (8 * (k1 * ((z * z) * x)) + 4 * (k1 * (((2 * z) * (2 * z)) * (x + y))) + 8 * (k1
            * ((z * z) * y))) == k1 * ((z * z) * (24 * ((y * y) - (x * x)))),
{
    let ss = 8 * (k1 * x) + 16 * (k1 * (x + y)) + 8 * (k1 * y);
    assert((y - x) * ss == k1 * (24 * ((y * y) - (x * x)))) by (nonlinear_arith)
        requires
            ss == 8 * (k1 * x) + 16 * (k1 * (x + y)) + 8 * (k1 * y),
    ;
    assert(8 * (k1 * ((z * z) * x)) == (z * z) * (8 * (k1 * x))) by (nonlinear_arith);
    assert(4 * (k1 * (((2 * z) * (2 * z)) * (x + y))) == (z * z) * (16 * (k1 * (x
        + y)))) by (nonlinear_arith);
    assert(8 * (k1 * ((z * z) * y)) == (z * z) * (8 * (k1 * y))) by (nonlinear_arith);
    vstd::arithmetic::mul::lemma_mul_is_distributive_add(z * z, 8 * (k1 * x), 16 * (k1 * (x + y)));
    vstd::arithmetic::mul::lemma_mul_is_distributive_add(
        z * z,
        8 * (k1 * x) + 16 * (k1 * (x + y)),
        8 * (k1 * y),
    );
    assert((y - x) * ((z * z) * ss) == (z * z) * ((y - x) * ss)) by (nonlinear_arith);
    assert((z * z) * (k1 * (24 * ((y * y) - (x * x)))) == k1 * ((z * z) * (24 * ((y * y) - (x
        * x))))) by (nonlinear_arith);
}

/// Constant row of the telescoping identity.
proof fn lemma_left_row0(k0: int, x: int, y: int, z: int)
    by (nonlinear_arith)
    ensures
        (y - x) * (8 * (k0 * ((z * z) * z)) + 4 * (k0 * (((2 * z) * (2 * z)) * (2 * z))) + 8 * (k0
            * ((z * z) * z))) == k0 * (((z * z) * z) * (48 * (y - x))),
{
}

/// Cubic row of the antiderivative difference.
proof fn lemma_right_row3(k3: int, x: int, y: int)
    by (nonlinear_arith)
    ensures
        2 * (y * (6 * k3 * ((y * y) * y)) - x * (6 * k3 * ((x * x) * x))) == k3 * (12 * (((y * y)
            * (y * y)) - ((x * x) * (x * x)))),
{
}

/// Quadratic row of the antiderivative difference.
proof fn lemma_right_row2(k2: int, x: int, y: int, z: int)
    by (nonlinear_arith)
    ensures
        2 * (y * (8 * k2 * (z * (y * y))) - x * (8 * k2 * (z * (x * x)))) == k2 * (z * (16 * (((y
            * y) * y) - ((x * x) * x)))),
{
}

/// Linear row of the antiderivative difference.
proof fn lemma_right_row1(k1: int, x: int, y: int, z: int)
    by (nonlinear_arith)
    ensures
        2 * (y * (12 * k1 * ((z * z) * y)) - x * (12 * k1 * ((z * z) * x))) == k1 * ((z * z) * (24
            * ((y * y) - (x * x)))),
{
}

/// Constant row of the antiderivative difference.
proof fn lemma_right_row0(k0: int, x: int, y: int, z: int)
    by (nonlinear_arith)
    ensures
        2 * (y * (24 * k0 * ((z * z) * z)) - x * (24 * k0 * ((z * z) * z))) == k0 * (((z * z) * z)
            * (48 * (y - x))),
{
}

/// The heart of the exactness proof, in integers: the Simpson weight
/// combination of `pn` at the two ends and the midpoint telescopes into
/// the difference of the antiderivative numerators.
pub proof fn lemma_core(k0: int, k1: int, k2: int, k3: int, x: int, y: int, z: int)
    ensures
        (y - x) * (8 * pn(k0, k1, k2, k3, x, z) + 4 * pn(k0, k1, k2, k3, x + y, 2 * z) + 8 * pn(
            k0,
            k1,
            k2,
            k3,
            y,
            z,
        )) == 2 * (y * fnum(k0, k1, k2, k3, y, z) - x * fnum(k0, k1, k2, k3, x, z)),
{
    let r3 = 8 * (k3 * ((x * x) * x)) + 4 * (k3 * (((x + y) * (x + y)) * (x + y))) + 8 * (k3 * ((y
        * y) * y));
    let r2 = 8 * (k2 * (z * (x * x))) + 4 * (k2 * ((2 * z) * ((x + y) * (x + y)))) + 8 * (k2 * (z
        * (y * y)));
    let r1 = 8 * (k1 * ((z * z) * x)) + 4 * (k1 * (((2 * z) * (2 * z)) * (x + y))) + 8 * (k1 * ((z
        * z) * y));
    let r0 = 8 * (k0 * ((z * z) * z)) + 4 * (k0 * (((2 * z) * (2 * z)) * (2 * z))) + 8 * (k0 * ((z
        * z) * z));
    assert(8 * pn(k0, k1, k2, k3, x, z) + 4 * pn(k0, k1, k2, k3, x + y, 2 * z) + 8 * pn(
        k0,
        k1,
        k2,
        k3,
        y,
        z,
    ) == r3 + r2 + r1 + r0);
    vstd::arithmetic::mul::lemma_mul_is_distributive_add(y - x, r3 + r2 + r1, r0);
    vstd::arithmetic::mul::lemma_mul_is_distributive_add(y - x, r3 + r2, r1);
    vstd::arithmetic::mul::lemma_mul_is_distributive_add(y - x, r3, r2);
    lemma_left_row3(k3, x, y);
    lemma_left_row2(k2, x, y, z);
    lemma_left_row1(k1, x, y, z);
    lemma_left_row0(k0, x, y, z);
    // The antiderivative side, split into the same four rows.
    let fy3 = 6 * k3 * ((y * y) * y);
    let fy2 = 8 * k2 * (z * (y * y));
    let fy1 = 12 * k1 * ((z * z) * y);
    let fy0 = 24 * k0 * ((z * z) * z);
    let fx3 = 6 * k3 * ((x * x) * x);
    let fx2 = 8 * k2 * (z * (x * x));
    let fx1 = 12 * k1 * ((z * z) * x);
    let fx0 = 24 * k0 * ((z * z) * z);
    assert(fnum(k0, k1, k2, k3, y, z) == fy0 + fy1 + fy2 + fy3);
    assert(fnum(k0, k1, k2, k3, x, z) == fx0 + fx1 + fx2 + fx3);
    vstd::arithmetic::mul::lemma_mul_is_distributive_add(y, fy0 + fy1 + fy2, fy3);
    vstd::arithmetic::mul::lemma_mul_is_distributive_add(y, fy0 + fy1, fy2);
    vstd::arithmetic::mul::lemma_mul_is_distributive_add(y, fy0, fy1);
    vstd::arithmetic::mul::lemma_mul_is_distributive_add(x, fx0 + fx1 + fx2, fx3);
    vstd::arithmetic::mul::lemma_mul_is_distributive_add(x, fx0 + fx1, fx2);
    vstd::arithmetic::mul::lemma_mul_is_distributive_add(x, fx0, fx1);
    lemma_right_row3(k3, x, y);
    lemma_right_row2(k2, x, y, z);
    lemma_right_row1(k1, x, y, z);
    lemma_right_row0(k0, x, y, z);
}

/// `x` cubed, on raw fractions.
pub open spec fn cube_raw(x: Frac) -> Frac {
    (x.times(x)).times(x)
}

/// The exact integral of `x³` over `[u, v]`: `(v⁴ - u⁴)/4`.
pub open spec fn integral_cube_raw(u: Frac, v: Frac) -> Frac {
    ((cube_raw(v).times(v)).minus(cube_raw(u).times(u))).times(quarter_frac())
}

/// Exactness of one Simpson panel on the cube monomial: over any
/// interval written with one common denominator, the panel expression
/// denotes exactly `(v⁴ - u⁴)/4`.
pub proof fn lemma_simpson_exact_cube(un: int, vn: int, d: int)
    requires
        d > 0,
    ensures
        ({
            let u = Frac { num: un, den: d };
            let v = Frac { num: vn, den: d };
            simpson_raw(u, v, cube_raw(u), cube_raw(mid_raw(u, v)), cube_raw(v)).eq_val(
                integral_cube_raw(u, v),
            )
        }),
{

    let u = Frac { num: un, den: d };
    let v = Frac { num: vn, den: d };
    let s = simpson_raw(u, v, cube_raw(u), cube_raw(mid_raw(u, v)), cube_raw(v));
    let i = integral_cube_raw(u, v);
    let mn = (un * d + vn * d) * 1;
    let md = (d * d) * 2;
    let pmn = (mn * mn) * mn;
    let pmd = (md * md) * md;
    let pun = (un * un) * un;
    let pud = (d * d) * d;
    let pvn = (vn * vn) * vn;
    let w1n = 4 * pmn;
    let w1d = 1 * pmd;
    let w2n = pun * w1d + w1n * pud;
    let w2d = pud * w1d;
    let wn = w2n * pud + pvn * w2d;
    let wd = w2d * pud;
    let h6n = (vn * d - un * d) * 1;
    let h6d = (d * d) * 6;
    let sn = h6n * wn;
    let sd = h6d * wd;
    let p4vn = pvn * vn;
    let p4un = pun * un;
    let p4d = pud * d;
    let dn = p4vn * p4d - p4un * p4d;
    let dd = p4d * p4d;
    let in_ = dn * 1;
    let id_ = dd * 4;
    assert(s.num == sn && s.den == sd && i.num == in_ && i.den == id_);
    let tt = un + vn;
    let pt = (tt * tt) * tt;
    let mm = vn - un;
    assert(pmn == pud * pt) by (nonlinear_arith)
        requires
            pmn == (mn * mn) * mn,
            mn == (un * d + vn * d) * 1,
            pud == (d * d) * d,
            pt == (tt * tt) * tt,
            tt == un + vn,
    ;
    assert(pmd == 8 * (pud * pud)) by (nonlinear_arith)
        requires
            pmd == (md * md) * md,
            md == (d * d) * 2,
            pud == (d * d) * d,
    ;
    let q = 8 * pun + 4 * pt + 8 * pvn;
    assert(w2n == (pud * pud) * (8 * pun + 4 * pt)) by (nonlinear_arith)
        requires
            w2n == pun * w1d + w1n * pud,
            w1d == 1 * pmd,
            pmd == 8 * (pud * pud),
            w1n == 4 * pmn,
            pmn == pud * pt,
    ;
    assert(w2d == 8 * ((pud * pud) * pud)) by (nonlinear_arith)
        requires
            w2d == pud * w1d,
            w1d == 1 * pmd,
            pmd == 8 * (pud * pud),
    ;
    assert(wn == ((pud * pud) * pud) * q) by (nonlinear_arith)
        requires
            wn == w2n * pud + pvn * w2d,
            w2n == (pud * pud) * (8 * pun + 4 * pt),
            w2d == 8 * ((pud * pud) * pud),
            q == 8 * pun + 4 * pt + 8 * pvn,
    ;
    assert(wd == 8 * ((((pud * pud) * pud) * pud))) by (nonlinear_arith)
        requires
            wd == w2d * pud,
            w2d == 8 * ((pud * pud) * pud),
    ;
    assert(sn == (d * mm) * (((pud * pud) * pud) * q)) by (nonlinear_arith)
        requires
            sn == h6n * wn,
            h6n == (vn * d - un * d) * 1,
            mm == vn - un,
            wn == ((pud * pud) * pud) * q,
    ;
    assert(sd == 48 * ((d * d) * (((pud * pud) * pud) * pud))) by (nonlinear_arith)
        requires
            sd == h6d * wd,
            h6d == (d * d) * 6,
            wd == 8 * ((((pud * pud) * pud) * pud)),
    ;
    assert(dn == p4d * (p4vn - p4un)) by (nonlinear_arith)
        requires
            dn == p4vn * p4d - p4un * p4d,
    ;
    assert(mm * q == 12 * (p4vn - p4un)) by (nonlinear_arith)
        requires
            mm == vn - un,
            q == 8 * pun + 4 * pt + 8 * pvn,
            pun == (un * un) * un,
            pvn == (vn * vn) * vn,
            pt == (tt * tt) * tt,
            tt == un + vn,
            p4vn == pvn * vn,
            p4un == pun * un,
    ;
    let kk = ((d * d) * d) * ((((pud * pud) * pud) * pud) * pud);
    let p2 = pud * pud;
    let p3 = p2 * pud;
    let p4 = p3 * pud;
    let p5 = p4 * pud;
    let d2 = d * d;
    let d3 = d2 * d;
    assert(kk == d3 * p5) by (nonlinear_arith)
        requires
            kk == ((d * d) * d) * ((((pud * pud) * pud) * pud) * pud),
            d3 == (d * d) * d,
            p2 == pud * pud,
            p3 == p2 * pud,
            p4 == p3 * pud,
            p5 == p4 * pud,
    ;
    let xx = d * mm;
    let yy = p3 * q;
    let zz = ((pud * d) * (pud * d)) * 4;
    assert(sn * id_ == (xx * yy) * zz);
    assert((xx * yy) * zz == (xx * zz) * yy) by (nonlinear_arith);
    assert(xx * zz == (4 * mm) * (d3 * p2)) by (nonlinear_arith)
        requires
            xx == d * mm,
            zz == ((pud * d) * (pud * d)) * 4,
            d3 == (d * d) * d,
            p2 == pud * pud,
    ;
    assert(p5 == p3 * p2) by (nonlinear_arith)
        requires
            p2 == pud * pud,
            p3 == p2 * pud,
            p4 == p3 * pud,
            p5 == p4 * pud,
    ;
    assert(((4 * mm) * (d3 * p2)) * yy == (4 * (mm * q)) * (d3 * p5)) by (nonlinear_arith)
        requires
            yy == p3 * q,
            p5 == p3 * p2,
    ;
    assert(sn * id_ == (4 * (mm * q)) * kk);
    assert(in_ * sd == ((pud * d) * (p4vn - p4un)) * (48 * (d2 * p4)));
    assert(((pud * d) * (p4vn - p4un)) * (48 * (d2 * p4)) == (48 * (p4vn - p4un)) * (d3
        * p5)) by (nonlinear_arith)
        requires
            d3 == d2 * d,
            p5 == p4 * pud,
    ;
    assert(in_ * sd == (48 * (p4vn - p4un)) * kk);
    assert((4 * (mm * q)) * kk == (48 * (p4vn - p4un)) * kk) by (nonlinear_arith)
        requires
            mm * q == 12 * (p4vn - p4un),
    ;
}

} // verus!
