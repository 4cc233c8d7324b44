//! The adaptive Simpson quadrature engine.
//!
//! `integrate` evaluates the integrand at the two endpoints and the
//! midpoint, forms the whole-interval Simpson estimate, and hands the
//! interval to `refine`. Each `refine` call evaluates the integrand at
//! exactly two new points, compares the one-panel estimate against the
//! two-panel one, and either accepts the Richardson-extrapolated value or
//! bisects, giving each half one half of the error budget and one less
//! unit of depth allowance. The depth ceiling bounds the work on
//! integrands whose error estimate never converges.
//!
//! Every contract is stated against a specification-level mirror of the
//! same recursion over exact checked rational arithmetic, so the result —
//! including the evaluation count and the exact rational value returned —
//! is pinned down completely.

use vstd::prelude::*;

verus! {

use crate::frac::Frac;
use crate::frac::frac_zero;
use crate::frac::norm;
use crate::frac::plus_checked;
use crate::frac::minus_checked;
use crate::frac::times_checked;
use crate::integrand::Integrand;
use crate::rat::Rat;
use crate::rat::view_opt;
use vstd::arithmetic::power2::pow2;
use vstd::arithmetic::power2::lemma_pow2_strictly_increases;
use vstd::arithmetic::power2::lemma2_to64;
use vstd::arithmetic::power2::lemma2_to64_rest;
use vstd::arithmetic::power2::lemma_pow2_pos;

/// The fixed recursion ceiling of `integrate`.
pub const MAX_DEPTH: u32 = 50;

/// Why `integrate` returned no estimate.
#[derive(Clone, Copy, Debug, PartialEq, Eq, Structural)]
pub enum QuadError {
    /// The left endpoint lies right of the right endpoint.
    InvalidInterval,
    /// The tolerance is not strictly positive.
    InvalidTolerance,
    /// An exact intermediate value left the 64-bit rational range, either
    /// in the engine's own arithmetic or inside the integrand.
    OutOfRange,
}

/// The refined estimate for one sub-interval, with the number of
/// refinement calls spent below it.
pub struct Estimate {
    pub value: Rat,
    pub calls: u64,
}

/// An integral estimate together with the number of integrand
/// evaluations it took.
pub struct Quadrature {
    pub value: Rat,
    pub evals: u64,
}

/// Specification-level counterpart of [`Estimate`].
pub ghost struct RunModel {
    pub value: Frac,
    pub calls: nat,
}

/// The views of an optional estimate.
pub open spec fn est_model(r: Option<Estimate>) -> Option<RunModel> {
    match r {
        Some(e) => Some(RunModel { value: e.value@, calls: e.calls as nat }),
        None => None,
    }
}

/// One half.
pub open spec fn half_frac() -> Frac {
    Frac { num: 1, den: 2 }
}

/// One sixth.
pub open spec fn sixth_frac() -> Frac {
    Frac { num: 1, den: 6 }
}

/// One fifteenth.
pub open spec fn fifteenth_frac() -> Frac {
    Frac { num: 1, den: 15 }
}

/// Four.
pub open spec fn four_frac() -> Frac {
    Frac { num: 4, den: 1 }
}

/// What the engine sees of an integrand value: the reduced model value.
pub open spec fn fval<I: Integrand + ?Sized>(f: &I, x: Frac) -> Frac {
    norm(f.model(x))
}

/// Simpson weight sum `fa + 4·fm + fb`, through checked arithmetic.
pub open spec fn weights_checked(fa: Frac, fm: Frac, fb: Frac) -> Option<Frac> {
    match times_checked(four_frac(), fm) {
        Some(t) => match plus_checked(fa, t) {
            Some(u) => plus_checked(u, fb),
            None => None,
        },
        None => None,
    }
}

/// One Simpson panel: a scaled width times the weight sum.
pub open spec fn panel_checked(hs: Frac, fa: Frac, fm: Frac, fb: Frac) -> Option<Frac> {
    match weights_checked(fa, fm, fb) {
        Some(w) => times_checked(hs, w),
        None => None,
    }
}

/// Midpoint and quarter points of an interval, through checked
/// arithmetic.
pub open spec fn seg_points(a: Frac, b: Frac) -> Option<(Frac, Frac, Frac)> {
    match plus_checked(a, b) {
        Some(ab) => match times_checked(ab, half_frac()) {
            Some(m) => match plus_checked(a, m) {
                Some(am) => match times_checked(am, half_frac()) {
                    Some(lm) => match plus_checked(m, b) {
                        Some(mb) => match times_checked(mb, half_frac()) {
                            Some(rm) => Some((m, lm, rm)),
                            None => None,
                        },
                        None => None,
                    },
                    None => None,
                },
                None => None,
            },
            None => None,
        },
        None => None,
    }
}

/// Half-panel width scale `((b - a)·½)·⅙`, through checked arithmetic.
pub open spec fn half_scale(a: Frac, b: Frac) -> Option<Frac> {
    match minus_checked(b, a) {
        Some(h) => match times_checked(h, half_frac()) {
            Some(h2) => times_checked(h2, sixth_frac()),
            None => None,
        },
        None => None,
    }
}

/// The recursive refinement, mirrored over exact checked arithmetic.
///
/// `None` exactly when some intermediate value, or an integrand value at
/// a sampled point, leaves the representable range.
pub open spec fn refine_model<I: Integrand + ?Sized>(
    f: &I,
    a: Frac,
    b: Frac,
    eps: Frac,
    s: Frac,
    fa: Frac,
    fb: Frac,
    fm: Frac,
    depth: nat,
) -> Option<RunModel>
    decreases depth,
{
    match seg_points(a, b) {
        None => None,
        Some((m, lm, rm)) => if !f.defined(lm) || !f.defined(rm) {
            None
        } else {
            let flm = fval(f, lm);
            let frm = fval(f, rm);
            match half_scale(a, b) {
                None => None,
                Some(h26) => match panel_checked(h26, fa, flm, fm) {
                    None => None,
                    Some(sl) => match panel_checked(h26, fm, frm, fb) {
                        None => None,
                        Some(sr) => match plus_checked(sl, sr) {
                            None => None,
                            Some(s2) => match minus_checked(s2, s) {
                                None => None,
                                Some(diff) => match times_checked(
                                    diff.abs_val(),
                                    fifteenth_frac(),
                                ) {
                                    None => None,
                                    Some(err) => if err.le_val(eps) || depth == 0 {
                                        match times_checked(diff, fifteenth_frac()) {
                                            None => None,
                                            Some(corr) => match plus_checked(s2, corr) {
                                                None => None,
                                                Some(v) => Some(
                                                    RunModel { value: v, calls: 1 },
                                                ),
                                            },
                                        }
                                    } else {
                                        match times_checked(eps, half_frac()) {
                                            None => None,
                                            Some(eps2) => match refine_model(
                                                f,
                                                a,
                                                m,
                                                eps2,
                                                sl,
                                                fa,
                                                fm,
                                                flm,
                                                (depth - 1) as nat,
                                            ) {
                                                None => None,
                                                Some(l) => match refine_model(
                                                    f,
                                                    m,
                                                    b,
                                                    eps2,
                                                    sr,
                                                    fm,
                                                    fb,
                                                    frm,
                                                    (depth - 1) as nat,
                                                ) {
                                                    None => None,
                                                    Some(r) => match plus_checked(
                                                        l.value,
                                                        r.value,
                                                    ) {
                                                        None => None,
                                                        Some(v) => Some(
                                                            RunModel {
                                                                value: v,
                                                                calls: 1 + l.calls + r.calls,
                                                            },
                                                        ),
                                                    },
                                                },
                                            },
                                        }
                                    },
                                },
                            },
                        },
                    },
                },
            }
        },
    }
}

/// The whole computation of `integrate` on an already validated interval
/// and tolerance: three endpoint evaluations, the whole-interval Simpson
/// estimate, then the recursive refinement.
pub open spec fn integrate_model<I: Integrand + ?Sized>(
    f: &I,
    a: Frac,
    b: Frac,
    tol: Frac,
    depth: nat,
) -> Option<RunModel> {
    if !f.defined(a) || !f.defined(b) {
        None
    } else {
        match plus_checked(a, b) {
            None => None,
            Some(ab) => match times_checked(ab, half_frac()) {
                None => None,
                Some(m) => if !f.defined(m) {
                    None
                } else {
                    match minus_checked(b, a) {
                        None => None,
                        Some(h) => match times_checked(h, sixth_frac()) {
                            None => None,
                            Some(h6) => match panel_checked(
                                h6,
                                fval(f, a),
                                fval(f, m),
                                fval(f, b),
                            ) {
                                None => None,
                                Some(s) => refine_model(
                                    f,
                                    a,
                                    b,
                                    tol,
                                    s,
                                    fval(f, a),
                                    fval(f, b),
                                    fval(f, m),
                                    depth,
                                ),
                            },
                        },
                    }
                },
            },
        }
    }
}

/// Simpson weight sum `fa + 4·fm + fb`.
fn weights(fa: &Rat, fm: &Rat, fb: &Rat) -> (r: Option<Rat>)
    requires
        fa.wf(),
        fm.wf(),
        fb.wf(),
    ensures
        view_opt(r) == weights_checked(fa@, fm@, fb@),
        r matches Some(v) ==> v.wf(),
{
    let four = Rat::from_parts(4, 1);
    let t = match four.times(fm) {
        Some(t) => t,
        None => {
            return None;
        },
    };
    let u = match fa.plus(&t) {
        Some(u) => u,
        None => {
            return None;
        },
    };
    u.plus(fb)
}

/// One Simpson panel: a scaled width times the weight sum.
fn panel(hs: &Rat, fa: &Rat, fm: &Rat, fb: &Rat) -> (r: Option<Rat>)
    requires
        hs.wf(),
        fa.wf(),
        fm.wf(),
        fb.wf(),
    ensures
        view_opt(r) == panel_checked(hs@, fa@, fm@, fb@),
        r matches Some(v) ==> v.wf(),
{
    let w = match weights(fa, fm, fb) {
        Some(w) => w,
        None => {
            return None;
        },
    };
    hs.times(&w)
}

/// Recursive refinement of one sub-interval.
///
/// `a` and `b` bound the sub-interval; `fa`, `fb` and `fm` are the
/// integrand values already evaluated at its endpoints and midpoint —
/// they are never re-evaluated; `s` is the one-panel Simpson estimate the
/// caller already holds; `eps` is this sub-interval's error budget, and
/// `depth` its remaining recursion allowance. Exactly two new integrand
/// evaluations happen per call. The result equals the mirrored exact
/// recursion, and the number of calls spent is bounded by the depth
/// allowance.
#[verifier::rlimit(30)]
pub fn refine<I: Integrand>(
    f: &I,
    a: &Rat,
    b: &Rat,
    eps: &Rat,
    s: &Rat,
    fa: &Rat,
    fb: &Rat,
    fm: &Rat,
    depth: u32,
) -> (r: Option<Estimate>)
    requires
        f.wf(),
        a.wf(),
        b.wf(),
        eps.wf(),
        s.wf(),
        fa.wf(),
        fb.wf(),
        fm.wf(),
        depth <= MAX_DEPTH,
    ensures
        est_model(r) == refine_model(f, a@, b@, eps@, s@, fa@, fb@, fm@, depth as nat),
        r matches Some(est) ==> est.value.wf() && 1 <= est.calls < pow2((depth + 1) as nat),
    decreases depth,
{
    proof {
        lemma_pow2_pos((depth + 1) as nat);
    }
    let half = Rat::from_parts(1, 2);
    let sixth = Rat::from_parts(1, 6);
    let fifteenth = Rat::from_parts(1, 15);
    let ab = match a.plus(b) {
        Some(v) => v,
        None => {
            return None;
        },
    };
    let m = match ab.times(&half) {
        Some(v) => v,
        None => {
            return None;
        },
    };
    let am = match a.plus(&m) {
        Some(v) => v,
        None => {
            return None;
        },
    };
    let lm = match am.times(&half) {
        Some(v) => v,
        None => {
            return None;
        },
    };
    let mb = match m.plus(b) {
        Some(v) => v,
        None => {
            return None;
        },
    };
    let rm = match mb.times(&half) {
        Some(v) => v,
        None => {
            return None;
        },
    };
    proof {
        assert(seg_points(a@, b@) == Some((m@, lm@, rm@)));
    }
    let flm = match f.eval(&lm) {
        Some(v) => v,
        None => {
            return None;
        },
    };
    let frm = match f.eval(&rm) {
        Some(v) => v,
        None => {
            return None;
        },
    };
    let h = match b.minus(a) {
        Some(v) => v,
        None => {
            return None;
        },
    };
    let h2 = match h.times(&half) {
        Some(v) => v,
        None => {
            return None;
        },
    };
    let h26 = match h2.times(&sixth) {
        Some(v) => v,
        None => {
            return None;
        },
    };
    proof {
        assert(half_scale(a@, b@) == Some(h26@));
    }
    let sl = match panel(&h26, fa, &flm, fm) {
        Some(v) => v,
        None => {
            return None;
        },
    };
    let sr = match panel(&h26, fm, &frm, fb) {
        Some(v) => v,
        None => {
            return None;
        },
    };
    let s2 = match sl.plus(&sr) {
        Some(v) => v,
        None => {
            return None;
        },
    };
    let diff = match s2.minus(s) {
        Some(v) => v,
        None => {
            return None;
        },
    };
    let err = match diff.abs().times(&fifteenth) {
        Some(v) => v,
        None => {
            return None;
        },
    };
    if err.le(eps) || depth == 0 {
        proof {
            lemma2_to64();
            if depth >= 1 {
                lemma_pow2_strictly_increases(1, (depth + 1) as nat);
            }
        }
        let corr = match diff.times(&fifteenth) {
            Some(v) => v,
            None => {
                return None;
            },
        };
        let value = match s2.plus(&corr) {
            Some(v) => v,
            None => {
                return None;
            },
        };
        Some(Estimate { value, calls: 1 })
    } else {
        let eps2 = match eps.times(&half) {
            Some(v) => v,
            None => {
                return None;
            },
        };
        let left = match refine(f, a, &m, &eps2, &sl, fa, fm, &flm, depth - 1) {
            Some(v) => v,
            None => {
                return None;
            },
        };
        let right = match refine(f, &m, b, &eps2, &sr, fm, fb, &frm, depth - 1) {
            Some(v) => v,
            None => {
                return None;
            },
        };
        let value = match left.value.plus(&right.value) {
            Some(v) => v,
            None => {
                return None;
            },
        };
        proof {
            lemma_pow2_strictly_increases(depth as nat, (depth + 1) as nat);
            assert(pow2((depth + 1) as nat) == 2 * pow2(depth as nat)) by {
                vstd::arithmetic::power2::lemma_pow2_unfold((depth + 1) as nat);
            }
            lemma2_to64();
            lemma2_to64_rest();
            if ((depth + 1) as nat) < 51 {
                lemma_pow2_strictly_increases((depth + 1) as nat, 51);
            }
        }
        Some(Estimate { value, calls: 1 + left.calls + right.calls })
    }
}

/// Adaptive Simpson integration of `f` over `[a, b]`, with the
/// evaluation count reported and the depth ceiling chosen by the caller.
///
/// The interval must satisfy `a <= b` and the tolerance must be strictly
/// positive; each violation is reported as its own error before any work
/// happens. On a valid request the result equals the mirrored exact
/// recursion, and the evaluation count is exactly three plus twice the
/// number of refinement calls — each point of the refinement tree is
/// evaluated once, never re-evaluated.
pub fn integrate_report_with_depth<I: Integrand>(
    f: &I,
    a: &Rat,
    b: &Rat,
    tolerance: &Rat,
    depth: u32,
) -> (r: Result<Quadrature, QuadError>)
    requires
        f.wf(),
        a.wf(),
        b.wf(),
        tolerance.wf(),
        depth <= MAX_DEPTH,
    ensures
        !a@.le_val(b@) <==> r == Err::<Quadrature, QuadError>(QuadError::InvalidInterval),
        a@.le_val(b@) && !frac_zero().lt_val(tolerance@) <==> r == Err::<
            Quadrature,
            QuadError,
        >(QuadError::InvalidTolerance),
        a@.le_val(b@) && frac_zero().lt_val(tolerance@) ==> match integrate_model(
            f,
            a@,
            b@,
            tolerance@,
            depth as nat,
        ) {
            Some(run) => r matches Ok(q) && q.value@ == run.value && q.value.wf() && q.evals
                == 3 + 2 * run.calls,
            None => r == Err::<Quadrature, QuadError>(QuadError::OutOfRange),
        },
{
    let zero = Rat::from_parts(0, 1);
    if !a.le(b) {
        return Err(QuadError::InvalidInterval);
    }
    if !zero.lt(tolerance) {
        return Err(QuadError::InvalidTolerance);
    }
    let half = Rat::from_parts(1, 2);
    let sixth = Rat::from_parts(1, 6);
    let fa = match f.eval(a) {
        Some(v) => v,
        None => {
            return Err(QuadError::OutOfRange);
        },
    };
    let fb = match f.eval(b) {
        Some(v) => v,
        None => {
            return Err(QuadError::OutOfRange);
        },
    };
    let ab = match a.plus(b) {
        Some(v) => v,
        None => {
            return Err(QuadError::OutOfRange);
        },
    };
    let m = match ab.times(&half) {
        Some(v) => v,
        None => {
            return Err(QuadError::OutOfRange);
        },
    };
    let fm = match f.eval(&m) {
        Some(v) => v,
        None => {
            return Err(QuadError::OutOfRange);
        },
    };
    let h = match b.minus(a) {
        Some(v) => v,
        None => {
            return Err(QuadError::OutOfRange);
        },
    };
    let h6 = match h.times(&sixth) {
        Some(v) => v,
        None => {
            return Err(QuadError::OutOfRange);
        },
    };
    let s = match panel(&h6, &fa, &fm, &fb) {
        Some(v) => v,
        None => {
            return Err(QuadError::OutOfRange);
        },
    };
    match refine(f, a, b, tolerance, &s, &fa, &fb, &fm, depth) {
        Some(est) => {
            proof {
                lemma2_to64();
                lemma2_to64_rest();
                if ((depth + 1) as nat) < 51 {
                    lemma_pow2_strictly_increases((depth + 1) as nat, 51);
                }
            }
            Ok(Quadrature { value: est.value, evals: 3 + 2 * est.calls })
        },
        None => Err(QuadError::OutOfRange),
    }
}

/// Adaptive Simpson integration with the evaluation count reported, at
/// the engine's fixed depth ceiling.
pub fn integrate_report<I: Integrand>(f: &I, a: &Rat, b: &Rat, tolerance: &Rat) -> (r: Result<
    Quadrature,
    QuadError,
>)
    requires
        f.wf(),
        a.wf(),
        b.wf(),
        tolerance.wf(),
    ensures
        !a@.le_val(b@) <==> r == Err::<Quadrature, QuadError>(QuadError::InvalidInterval),
        a@.le_val(b@) && !frac_zero().lt_val(tolerance@) <==> r == Err::<
            Quadrature,
            QuadError,
        >(QuadError::InvalidTolerance),
        a@.le_val(b@) && frac_zero().lt_val(tolerance@) ==> match integrate_model(
            f,
            a@,
            b@,
            tolerance@,
            MAX_DEPTH as nat,
        ) {
            Some(run) => r matches Ok(q) && q.value@ == run.value && q.value.wf() && q.evals
                == 3 + 2 * run.calls,
            None => r == Err::<Quadrature, QuadError>(QuadError::OutOfRange),
        },
{
    integrate_report_with_depth(f, a, b, tolerance, MAX_DEPTH)
}

/// Adaptive Simpson integration of `f` over `[a, b]` to the given
/// absolute error tolerance.
///
/// The returned value equals the mirrored exact recursion on the same
/// inputs: the whole-interval Simpson estimate refined until each
/// sub-interval's Richardson error estimate meets its share of the
/// budget or the depth ceiling is reached.
pub fn integrate<I: Integrand>(f: &I, a: &Rat, b: &Rat, tolerance: &Rat) -> (r: Result<
    Rat,
    QuadError,
>)
    requires
        f.wf(),
        a.wf(),
        b.wf(),
        tolerance.wf(),
    ensures
        !a@.le_val(b@) <==> r == Err::<Rat, QuadError>(QuadError::InvalidInterval),
        a@.le_val(b@) && !frac_zero().lt_val(tolerance@) <==> r == Err::<Rat, QuadError>(
            QuadError::InvalidTolerance,
        ),
        a@.le_val(b@) && frac_zero().lt_val(tolerance@) ==> match integrate_model(
            f,
            a@,
            b@,
            tolerance@,
            MAX_DEPTH as nat,
        ) {
            Some(run) => r matches Ok(v) && v@ == run.value && v.wf(),
            None => r == Err::<Rat, QuadError>(QuadError::OutOfRange),
        },
{
    match integrate_report(f, a, b, tolerance) {
        Ok(q) => Ok(q.value),
        Err(e) => Err(e),
    }
}

} // verus!
