//! Integrands: callables from one rational to one rational.
//!
//! The quadrature engine accepts any type implementing [`Integrand`]: one
//! evaluation method together with the mathematical function it computes
//! and the set of points where the 64-bit range suffices to hold the
//! result. The crate ships two implementations — polynomials, on which
//! Simpson's rule is provably exact up to degree three, and a worst-case
//! integrand whose embedded error estimate never converges.

use vstd::prelude::*;

verus! {

use crate::frac::Frac;
use crate::frac::frac_zero;
use crate::frac::abs_int;
use crate::frac::gcd;
use crate::frac::norm;
use crate::frac::plus_checked;
use crate::frac::times_checked;
use crate::frac::lemma_norm_fidelity;
use crate::frac::lemma_norm_congruent;
use crate::frac::lemma_norm_unit_den;
use crate::frac::lemma_times_congruent;
use crate::frac::lemma_plus_congruent;
use crate::rat::Rat;
use vstd::arithmetic::mul::lemma_mul_strictly_positive;
use vstd::arithmetic::div_mod::lemma_fundamental_div_mod;
use vstd::arithmetic::div_mod::lemma_fundamental_div_mod_converse;

/// A scalar function of one rational variable, as the engine sees it.
///
/// `model` is the mathematical function on raw fractions; `defined` marks
/// the points where an evaluation stays inside the 64-bit rational range;
/// `wf` is validity of the integrand's own data. `eval` must succeed
/// exactly on defined points and return the reduced model value.
pub trait Integrand {
    /// The mathematical function this integrand computes.
    spec fn model(&self, x: Frac) -> Frac;

    /// The points whose value is representable, so evaluation succeeds.
    spec fn defined(&self, x: Frac) -> bool;

    /// Validity of the integrand's own data.
    spec fn wf(&self) -> bool;

    /// Evaluate at `x`.
    fn eval(&self, x: &Rat) -> (r: Option<Rat>)
        requires
            x.wf(),
            self.wf(),
        ensures
            r is Some <==> self.defined(x@),
            r matches Some(v) ==> v.wf() && self.model(x@).wf() && v@ == norm(self.model(x@)),
    ;
}

/// Horner value of the coefficient suffix starting at index `i`:
/// `cs[i] + x * (cs[i+1] + x * (...))`, on raw fractions.
pub open spec fn horner_val(cs: Seq<Frac>, x: Frac, i: int) -> Frac
    decreases cs.len() - i,
    when 0 <= i <= cs.len()
{
    if i >= cs.len() {
        frac_zero()
    } else {
        (horner_val(cs, x, i + 1).times(x)).plus(cs[i])
    }
}

/// The same Horner recursion through reduced, range-checked arithmetic;
/// `None` as soon as one step leaves the representable range.
pub open spec fn horner_checked(cs: Seq<Frac>, x: Frac, i: int) -> Option<Frac>
    decreases cs.len() - i,
    when 0 <= i <= cs.len()
{
    if i >= cs.len() {
        Some(frac_zero())
    } else {
        match horner_checked(cs, x, i + 1) {
            Some(acc) => match times_checked(acc, x) {
                Some(t) => plus_checked(t, cs[i]),
                None => None,
            },
            None => None,
        }
    }
}

/// All fractions of a sequence are well-formed.
pub open spec fn all_wf(cs: Seq<Frac>) -> bool {
    forall|j: int| 0 <= j < cs.len() ==> (#[trigger] cs[j]).wf()
}

/// The Horner value of well-formed coefficients is well-formed.
pub proof fn lemma_horner_wf(cs: Seq<Frac>, x: Frac, i: int)
    requires
        all_wf(cs),
        x.wf(),
        0 <= i <= cs.len(),
    ensures
        horner_val(cs, x, i).wf(),
    decreases cs.len() - i,
{
    if i < cs.len() {
        lemma_horner_wf(cs, x, i + 1);
        let p = horner_val(cs, x, i + 1);
        lemma_mul_strictly_positive(p.den, x.den);
        lemma_mul_strictly_positive(p.den * x.den, cs[i].den);
    }
}

/// A failed checked step poisons every prefix of the recursion.
pub proof fn lemma_horner_checked_none(cs: Seq<Frac>, x: Frac, i: int, j: int)
    requires
        0 <= i <= j <= cs.len(),
        horner_checked(cs, x, j) is None,
    ensures
        horner_checked(cs, x, i) is None,
    decreases j - i,
{
    if i < j {
        lemma_horner_checked_none(cs, x, i + 1, j);
    }
}

/// When every checked step fits, the checked recursion returns exactly
/// the reduced exact Horner value.
pub proof fn lemma_horner_checked_norm(cs: Seq<Frac>, x: Frac, i: int)
    requires
        all_wf(cs),
        x.wf(),
        0 <= i <= cs.len(),
        horner_checked(cs, x, i) is Some,
    ensures
        horner_checked(cs, x, i) == Some(norm(horner_val(cs, x, i))),
    decreases cs.len() - i,
{
    if i >= cs.len() {
        lemma_norm_unit_den(0);
    } else {
        let inner = horner_checked(cs, x, i + 1);
        assert(inner is Some);
        lemma_horner_checked_norm(cs, x, i + 1);
        let p = horner_val(cs, x, i + 1);
        lemma_horner_wf(cs, x, i + 1);
        lemma_horner_wf(cs, x, i);
        let a = inner->Some_0;
        lemma_norm_fidelity(p);
        // a == norm(p), so a times x reduces like p times x.
        lemma_mul_strictly_positive(a.den, x.den);
        lemma_mul_strictly_positive(p.den, x.den);
        lemma_times_congruent(a, x, p, x);
        lemma_norm_congruent(a.times(x), p.times(x));
        let t = norm(a.times(x));
        lemma_norm_fidelity(a.times(x));
        lemma_norm_fidelity(p.times(x));
        crate::frac::lemma_eq_val_trans(t, a.times(x), p.times(x));
        lemma_mul_strictly_positive(t.den, cs[i].den);
        lemma_mul_strictly_positive(p.times(x).den, cs[i].den);
        lemma_plus_congruent(t, cs[i], p.times(x), cs[i]);
        lemma_norm_congruent(t.plus(cs[i]), (p.times(x)).plus(cs[i]));
    }
}

/// A polynomial in one variable: `coeffs[i]` multiplies the `i`-th power.
pub struct Poly {
    pub coeffs: Vec<Rat>,
}

impl Poly {
    /// The coefficients as raw fractions, lowest power first.
    pub open spec fn coeff_seq(&self) -> Seq<Frac> {
        self.coeffs@.map_values(|c: Rat| c@)
    }

    /// Wrap a coefficient vector.
    pub fn new(coeffs: Vec<Rat>) -> (p: Poly)
        ensures
            p.coeffs@ == coeffs@,
    {
        Poly { coeffs }
    }
}

impl Integrand for Poly {
    /// The exact polynomial value at `x`.
    open spec fn model(&self, x: Frac) -> Frac {
        horner_val(self.coeff_seq(), x, 0)
    }

    open spec fn defined(&self, x: Frac) -> bool {
        horner_checked(self.coeff_seq(), x, 0) is Some
    }

    open spec fn wf(&self) -> bool {
        forall|j: int| 0 <= j < self.coeffs@.len() ==> (#[trigger] self.coeffs@[j]).wf()
    }

    fn eval(&self, x: &Rat) -> (r: Option<Rat>) {
        let ghost cs = self.coeff_seq();
        proof {
            assert(all_wf(cs)) by {
                assert(forall|j: int|
                    0 <= j < cs.len() ==> (#[trigger] cs[j]) == self.coeffs@[j]@
                        && self.coeffs@[j].wf());
            }
        }
        let mut acc = Rat::from_int(0);
        let mut i: usize = self.coeffs.len();
        proof {
            assert(acc@ == frac_zero());
        }
        while i > 0
            invariant
                0 <= i <= self.coeffs.len(),
                x.wf(),
                self.wf(),
                acc.wf(),
                cs == self.coeff_seq(),
                all_wf(cs),
                horner_checked(cs, x@, i as int) == Some(acc@),
            decreases i,
        {
            i = i - 1;
            let t = match acc.times(x) {
                Some(t) => t,
                None => {
                    proof {
                        assert(horner_checked(cs, x@, i as int) is None);
                        lemma_horner_checked_none(cs, x@, 0, i as int);
                    }
                    return None;
                },
            };
            let s = match t.plus(&self.coeffs[i]) {
                Some(s) => s,
                None => {
                    proof {
                        assert(cs[i as int] == self.coeffs@[i as int]@);
                        assert(horner_checked(cs, x@, i as int) is None);
                        lemma_horner_checked_none(cs, x@, 0, i as int);
                    }
                    return None;
                },
            };
            proof {
                assert(cs[i as int] == self.coeffs@[i as int]@);
                assert(horner_checked(cs, x@, i as int) == Some(s@));
            }
            acc = s;
        }
        proof {
            lemma_horner_checked_norm(cs, x@, 0);
            lemma_horner_wf(cs, x@, 0);
        }
        Some(acc)
    }
}

/// Parity is blind to sign.
proof fn lemma_parity_abs(n: int)
    ensures
        (abs_int(n) % 2 == 0) == (n % 2 == 0),
{
    if n < 0 {
        let m = -n;
        lemma_fundamental_div_mod(m, 2);
        let q = m / 2;
        let r = m % 2;
        if r == 0 {
            lemma_fundamental_div_mod_converse(n, 2, -q, 0);
        } else {
            lemma_fundamental_div_mod_converse(n, 2, -q - 1, 2 - r);
        }
    }
}

/// A worst-case integrand for the refinement loop: at a point whose
/// reduced denominator is `d` its value is `±d²`, with the sign given by
/// the parity of the numerator. Every halving of an interval quadruples
/// the sampled magnitudes, so the embedded error estimate never falls
/// below a fixed tolerance and the engine runs to its depth ceiling.
pub struct SharpOscillator;

impl Integrand for SharpOscillator {
    open spec fn model(&self, x: Frac) -> Frac {
        Frac {
            num: if x.num % 2 == 0 {
                x.den * x.den
            } else {
                -(x.den * x.den)
            },
            den: 1,
        }
    }

    open spec fn defined(&self, x: Frac) -> bool {
        x.den * x.den <= i64::MAX as int
    }

    open spec fn wf(&self) -> bool {
        true
    }

    fn eval(&self, x: &Rat) -> (r: Option<Rat>) {
        let d = x.denom();
        if d <= 3_037_000_499u64 {
            proof {
                assert(x@.den * x@.den <= i64::MAX as int) by (nonlinear_arith)
                    requires
                        0 <= x@.den <= 3_037_000_499,
                ;
            }
            let sq = d * d;
            let n = x.numer();
            let neg = mag_of_odd(n);
            let v = if neg {
                -(sq as i64)
            } else {
                sq as i64
            };
            proof {
                lemma_parity_abs(x@.num);
                lemma_norm_unit_den(self.model(x@).num);
            }
            Some(Rat::from_parts(v, 1))
        } else {
            proof {
                assert(x@.den * x@.den > i64::MAX as int) by (nonlinear_arith)
                    requires
                        x@.den >= 3_037_000_500,
                ;
            }
            None
        }
    }
}

/// Whether the magnitude of `n` is odd.
fn mag_of_odd(n: i64) -> (r: bool)
    requires
        n > i64::MIN,
    ensures
        r == (abs_int(n as int) % 2 != 0),
{
    let m = if n < 0 {
        (-n) as u64
    } else {
        n as u64
    };
    m % 2 != 0
}

} // verus!
