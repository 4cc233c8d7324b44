//! Executable rational numbers.
//!
//! A value holds a 64-bit numerator and a positive 64-bit denominator.
//! Every arithmetic operation computes the exact result in 128-bit
//! intermediates, reduces it to lowest terms, and returns `None` when the
//! reduced result does not fit back into 64-bit components — the one
//! machine limit of this representation. No operation ever rounds.

use vstd::prelude::*;

verus! {

use crate::frac::Frac;
use crate::frac::abs_int;
use crate::frac::gcd;
use crate::frac::norm;
use crate::frac::fits;
use crate::frac::checked;
use crate::frac::plus_checked;
use crate::frac::minus_checked;
use crate::frac::times_checked;
use crate::frac::lemma_gcd_divides;
use crate::frac::lemma_norm_fidelity;
use vstd::arithmetic::mul::lemma_mul_upper_bound;
use vstd::arithmetic::mul::lemma_mul_nonnegative;

/// An exact rational with a 64-bit numerator and a positive 64-bit
/// denominator.
#[derive(Clone, Copy, Debug, PartialEq, Eq, Structural)]
pub struct Rat {
    num: i64,
    den: u64,
}

impl View for Rat {
    type V = Frac;

    closed spec fn view(&self) -> Frac {
        Frac { num: self.num as int, den: self.den as int }
    }
}

/// The views of an optional rational.
pub open spec fn view_opt(r: Option<Rat>) -> Option<Frac> {
    match r {
        Some(v) => Some(v@),
        None => None,
    }
}

/// `m` with the sign bit applied.
pub open spec fn signed(neg: bool, m: int) -> int {
    if neg {
        -m
    } else {
        m
    }
}

impl Rat {
    /// A well-formed value: positive denominator, and a numerator whose
    /// magnitude fits in 63 bits, so that negation never overflows.
    pub open spec fn wf(self) -> bool {
        &&& self@.den >= 1
        &&& self@.num > i64::MIN as int
    }
}

/// Magnitude of a numerator.
fn mag_of(n: i64) -> (m: u64)
    requires
        n > i64::MIN,
    ensures
        m as int == abs_int(n as int),
{
    if n < 0 {
        (-n) as u64
    } else {
        n as u64
    }
}

/// Euclid's algorithm on 128-bit unsigned words.
fn gcd_u128(a: u128, b: u128) -> (g: u128)
    requires
        b >= 1,
    ensures
        g as int == gcd(a as int, b as int),
        g >= 1,
{
    let ghost a0 = a as int;
    let ghost b0 = b as int;
    let mut x = a;
    let mut y = b;
    while y != 0
        invariant
            gcd(x as int, y as int) == gcd(a0, b0),
        decreases y,
    {
        let t = x % y;
        proof {
            assert(gcd(x as int, y as int) == gcd(y as int, (x as int) % (y as int)));
        }
        x = y;
        y = t;
    }
    proof {
        assert(gcd(x as int, 0) == x as int);
        lemma_gcd_divides(a0, b0);
    }
    x
}

/// Reduce a sign-magnitude fraction and re-pack it if it fits.
fn reduce_fit(neg: bool, mag: u128, den: u128) -> (r: Option<Rat>)
    requires
        den >= 1,
    ensures
        view_opt(r) == checked(Frac { num: signed(neg, mag as int), den: den as int }),
        r matches Some(v) ==> v.wf(),
{
    let ghost raw = Frac { num: signed(neg, mag as int), den: den as int };
    proof {
        assert(abs_int(raw.num) == mag as int);
        lemma_gcd_divides(mag as int, den as int);
        lemma_norm_fidelity(raw);
    }
    let g = gcd_u128(mag, den);
    let rn = mag / g;
    let rd = den / g;
    proof {
        assert(g as int == gcd(abs_int(raw.num), raw.den));
        assert(rd as int == norm(raw).den);
        // The reduced numerator has magnitude `rn`, whatever the sign.
        assert(mag as int == (g as int) * (rn as int)) by {
            vstd::arithmetic::div_mod::lemma_fundamental_div_mod(mag as int, g as int);
        }
        assert(raw.num == (g as int) * norm(raw).num);
        if neg {
            assert(norm(raw).num == -(rn as int)) by (nonlinear_arith)
                requires
                    mag as int == (g as int) * (rn as int),
                    -(mag as int) == (g as int) * norm(raw).num,
                    g >= 1,
            ;
        } else {
            assert(norm(raw).num == rn as int) by (nonlinear_arith)
                requires
                    mag as int == (g as int) * (rn as int),
                    mag as int == (g as int) * norm(raw).num,
                    g >= 1,
            ;
        }
    }
    if rn <= i64::MAX as u128 && rd <= u64::MAX as u128 {
        let num = if neg {
            -((rn as i64))
        } else {
            rn as i64
        };
        proof {
            assert(fits(norm(raw)));
        }
        Some(Rat { num, den: rd as u64 })
    } else {
        proof {
            assert(!fits(norm(raw)));
        }
        None
    }
}

/// The cross products used by comparisons and sums stay inside 128 bits.
proof fn lemma_cross_bound(n: int, d: int)
    requires
        -0x8000_0000_0000_0000 <= n <= 0x7fff_ffff_ffff_ffff,
        0 <= d <= 0xffff_ffff_ffff_ffff,
    ensures
        -0x8000_0000_0000_0000_0000_0000_0000_0000 < n * d
            < 0x8000_0000_0000_0000_0000_0000_0000_0000,
        abs_int(n * d) == abs_int(n) * d,
        n < 0 && d > 0 ==> n * d < 0,
        n >= 0 ==> n * d >= 0,
{
    assert(abs_int(n * d) == abs_int(n) * d && (n < 0 && d > 0 ==> n * d < 0) && (n >= 0 ==> n * d
        >= 0)) by (nonlinear_arith)
        requires
            d >= 0,
            abs_int(n) == (if n < 0 {
                -n
            } else {
                n
            }),
            abs_int(n * d) == (if n * d < 0 {
                -(n * d)
            } else {
                n * d
            }),
    ;
    assert(abs_int(n) * d <= 0x8000_0000_0000_0000 * 0xffff_ffff_ffff_ffff) by (nonlinear_arith)
        requires
            0 <= abs_int(n) <= 0x8000_0000_0000_0000,
            0 <= d <= 0xffff_ffff_ffff_ffff,
    ;
}

impl Rat {
    /// The rational `num / den`, reduced to lowest terms. `None` exactly
    /// when the denominator is zero or the numerator is the one 64-bit
    /// value whose magnitude does not fit in 63 bits.
    pub fn new(num: i64, den: u64) -> (r: Option<Rat>)
        ensures
            r is Some <==> (num > i64::MIN && den >= 1),
            r matches Some(v) ==> v.wf() && v@ == norm(
                Frac { num: num as int, den: den as int },
            ) && v@.eq_val(Frac { num: num as int, den: den as int }),
    {
        if den == 0 || num == i64::MIN {
            return None;
        }
        let ghost raw = Frac { num: num as int, den: den as int };
        let m = mag_of(num);
        let r = reduce_fit(num < 0, m as u128, den as u128);
        proof {
            assert(signed(num < 0, m as int) == num as int);
            lemma_norm_fidelity(raw);
            assert(abs_int(norm(raw).num) <= abs_int(raw.num));
            assert(fits(norm(raw)));
            assert(r is Some);
        }
        r
    }

    /// The rational `v / 1`.
    pub fn from_int(v: i64) -> (r: Rat)
        requires
            v > i64::MIN,
        ensures
            r.wf(),
            r@ == (Frac { num: v as int, den: 1 }),
    {
        Rat { num: v, den: 1 }
    }

    /// A value straight from its parts, not reduced.
    pub(crate) fn from_parts(num: i64, den: u64) -> (r: Rat)
        requires
            num > i64::MIN,
            den >= 1,
        ensures
            r.wf(),
            r@ == (Frac { num: num as int, den: den as int }),
    {
        Rat { num, den }
    }

    /// The numerator of the stored representation.
    pub fn numer(&self) -> (n: i64)
        ensures
            n as int == self@.num,
    {
        self.num
    }

    /// The denominator of the stored representation.
    pub fn denom(&self) -> (d: u64)
        ensures
            d as int == self@.den,
    {
        self.den
    }

    /// Negation; exact and always representable on well-formed values.
    pub fn neg(&self) -> (r: Rat)
        requires
            self.wf(),
        ensures
            r.wf(),
            r@ == (Frac { num: -self@.num, den: self@.den }),
    {
        Rat { num: -self.num, den: self.den }
    }

    /// Absolute value; exact and always representable.
    pub fn abs(&self) -> (r: Rat)
        requires
            self.wf(),
        ensures
            r.wf(),
            r@ == self@.abs_val(),
    {
        if self.num < 0 {
            Rat { num: -self.num, den: self.den }
        } else {
            *self
        }
    }

    /// Exact sum, reduced; `None` when the result leaves the 64-bit range.
    pub fn plus(&self, other: &Rat) -> (r: Option<Rat>)
        requires
            self.wf(),
            other.wf(),
        ensures
            view_opt(r) == plus_checked(self@, other@),
            r matches Some(v) ==> v.wf(),
    {
        let ghost a = self@.num * other@.den;
        let ghost b = other@.num * self@.den;
        proof {
            lemma_cross_bound(self@.num, other@.den);
            lemma_cross_bound(other@.num, self@.den);
        }
        let xneg = self.num < 0;
        let yneg = other.num < 0;
        let p1 = (mag_of(self.num) as u128) * (other.den as u128);
        let p2 = (mag_of(other.num) as u128) * (self.den as u128);
        proof {
            assert(p1 as int == abs_int(a) && p2 as int == abs_int(b));
        }
        proof {
            lemma_mul_upper_bound(
                self@.den,
                0xffff_ffff_ffff_ffff,
                other@.den,
                0xffff_ffff_ffff_ffff,
            );
            lemma_mul_nonnegative(self@.den, other@.den);
        }
        let den = (self.den as u128) * (other.den as u128);
        proof {
            assert(den as int >= 1) by (nonlinear_arith)
                requires
                    den as int == self@.den * other@.den,
                    self@.den >= 1,
                    other@.den >= 1,
            ;
        }
        let (neg, mag) = if xneg == yneg {
            (xneg, p1 + p2)
        } else if p1 >= p2 {
            (xneg, p1 - p2)
        } else {
            (yneg, p2 - p1)
        };
        proof {
            assert(signed(neg, mag as int) == a + b);
        }
        reduce_fit(neg, mag, den)
    }

    /// Exact difference, reduced; `None` when the result leaves the
    /// 64-bit range.
    pub fn minus(&self, other: &Rat) -> (r: Option<Rat>)
        requires
            self.wf(),
            other.wf(),
        ensures
            view_opt(r) == minus_checked(self@, other@),
            r matches Some(v) ==> v.wf(),
    {
        let flipped = other.neg();
        let r = self.plus(&flipped);
        proof {
            assert(self@.plus(flipped@) == self@.minus(other@)) by (nonlinear_arith)
                requires
                    flipped@ == (Frac { num: -other@.num, den: other@.den }),
            ;
        }
        r
    }

    /// Exact product, reduced; `None` when the result leaves the 64-bit
    /// range.
    pub fn times(&self, other: &Rat) -> (r: Option<Rat>)
        requires
            self.wf(),
            other.wf(),
        ensures
            view_opt(r) == times_checked(self@, other@),
            r matches Some(v) ==> v.wf(),
    {
        let xm = mag_of(self.num);
        let ym = mag_of(other.num);
        let neg = (self.num < 0) != (other.num < 0);
        proof {
            lemma_mul_upper_bound(
                abs_int(self@.num),
                0x7fff_ffff_ffff_ffff,
                abs_int(other@.num),
                0x7fff_ffff_ffff_ffff,
            );
            lemma_mul_nonnegative(abs_int(self@.num), abs_int(other@.num));
            lemma_mul_upper_bound(
                self@.den,
                0xffff_ffff_ffff_ffff,
                other@.den,
                0xffff_ffff_ffff_ffff,
            );
            lemma_mul_nonnegative(self@.den, other@.den);
        }
        let mag = (xm as u128) * (ym as u128);
        let den = (self.den as u128) * (other.den as u128);
        proof {
            assert(den as int >= 1) by (nonlinear_arith)
                requires
                    den as int == self@.den * other@.den,
                    self@.den >= 1,
                    other@.den >= 1,
            ;
            assert(signed(neg, mag as int) == self@.num * other@.num) by (nonlinear_arith)
                requires
                    mag as int == abs_int(self@.num) * abs_int(other@.num),
                    neg == ((self@.num < 0) != (other@.num < 0)),
                    abs_int(self@.num) == (if self@.num < 0 {
                        -self@.num
                    } else {
                        self@.num
                    }),
                    abs_int(other@.num) == (if other@.num < 0 {
                        -other@.num
                    } else {
                        other@.num
                    }),
                    signed(neg, mag as int) == (if neg {
                        -(mag as int)
                    } else {
                        mag as int
                    }),
            ;
        }
        reduce_fit(neg, mag, den)
    }

    /// Comparison by exact cross multiplication.
    pub fn le(&self, other: &Rat) -> (r: bool)
        requires
            self.wf(),
            other.wf(),
        ensures
            r == self@.le_val(other@),
    {
        proof {
            lemma_cross_bound(self@.num, other@.den);
            lemma_cross_bound(other@.num, self@.den);
        }
        (self.num as i128) * (other.den as i128) <= (other.num as i128) * (self.den as i128)
    }

    /// Strict comparison by exact cross multiplication.
    pub fn lt(&self, other: &Rat) -> (r: bool)
        requires
            self.wf(),
            other.wf(),
        ensures
            r == self@.lt_val(other@),
    {
        proof {
            lemma_cross_bound(self@.num, other@.den);
            lemma_cross_bound(other@.num, self@.den);
        }
        (self.num as i128) * (other.den as i128) < (other.num as i128) * (self.den as i128)
    }
}

} // verus!
