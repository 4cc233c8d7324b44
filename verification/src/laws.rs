//! Global laws of the quadrature engine, proved against its mirrored
//! specification.

use vstd::prelude::*;

verus! {

use crate::frac::Frac;
use crate::frac::frac_zero;
use crate::frac::norm;
use crate::frac::fits;
use crate::frac::plus_checked;
use crate::frac::minus_checked;
use crate::frac::times_checked;
use crate::frac::checked;
use crate::frac::lemma_norm_zero;
use crate::engine::RunModel;
use crate::engine::refine_model;
use crate::engine::integrate_model;
use crate::engine::seg_points;
use crate::engine::half_scale;
use crate::engine::panel_checked;
use crate::engine::weights_checked;
use crate::engine::half_frac;
use crate::engine::sixth_frac;
use crate::engine::fifteenth_frac;
use crate::engine::fval;
use crate::integrand::Integrand;
use vstd::arithmetic::power2::pow2;
use vstd::arithmetic::power2::lemma_pow2_strictly_increases;
use vstd::arithmetic::power2::lemma_pow2_unfold;
use vstd::arithmetic::power2::lemma2_to64;
use vstd::arithmetic::mul::lemma_mul_strictly_positive;

/// Depth-ceiling law: however the error estimates behave, a refinement
/// run with depth allowance `depth` spends fewer than `2^(depth+1)`
/// refinement calls — and so fewer than `2^(depth+2)` integrand
/// evaluations — before it terminates.
pub proof fn lemma_refine_calls_bounded<I: Integrand + ?Sized>(
    f: &I,
    a: Frac,
    b: Frac,
    eps: Frac,
    s: Frac,
    fa: Frac,
    fb: Frac,
    fm: Frac,
    depth: nat,
)
    requires
        refine_model(f, a, b, eps, s, fa, fb, fm, depth) is Some,
    ensures
        1 <= refine_model(f, a, b, eps, s, fa, fb, fm, depth)->Some_0.calls < pow2(depth + 1),
    decreases depth,
{
    lemma2_to64();
    if depth >= 1 {
        lemma_pow2_strictly_increases(1, depth + 1);
    }
    let r = refine_model(f, a, b, eps, s, fa, fb, fm, depth);
    let (m, lm, rm) = seg_points(a, b)->Some_0;
    let flm = fval(f, lm);
    let frm = fval(f, rm);
    let h26 = half_scale(a, b)->Some_0;
    let sl = panel_checked(h26, fa, flm, fm)->Some_0;
    let sr = panel_checked(h26, fm, frm, fb)->Some_0;
    let s2 = plus_checked(sl, sr)->Some_0;
    let diff = minus_checked(s2, s)->Some_0;
    let err = times_checked(diff.abs_val(), fifteenth_frac())->Some_0;
    if !(err.le_val(eps) || depth == 0) {
        let eps2 = times_checked(eps, half_frac())->Some_0;
        let dm1 = (depth - 1) as nat;
        lemma_refine_calls_bounded(f, a, m, eps2, sl, fa, fm, flm, dm1);
        lemma_refine_calls_bounded(f, m, b, eps2, sr, fm, fb, frm, dm1);
        let l = refine_model(f, a, m, eps2, sl, fa, fm, flm, dm1)->Some_0;
        let rr = refine_model(f, m, b, eps2, sr, fm, fb, frm, dm1)->Some_0;
        lemma_pow2_unfold(depth + 1);
        assert(r->Some_0.calls == 1 + l.calls + rr.calls);
    }
}

/// Tolerance-monotonicity law: tightening the error budget never prunes
/// refinement. With every other input equal, a run whose budget is at
/// most the other's spends at least as many refinement calls — its
/// refinement tree refines the other's, since both runs compute the same
/// error estimate at every shared node and the smaller budget accepts at
/// most where the larger one does.
pub proof fn lemma_tolerance_monotone<I: Integrand + ?Sized>(
    f: &I,
    a: Frac,
    b: Frac,
    eps1: Frac,
    eps2: Frac,
    s: Frac,
    fa: Frac,
    fb: Frac,
    fm: Frac,
    depth: nat,
)
    requires
        eps1.wf(),
        eps2.wf(),
        eps2.le_val(eps1),
        refine_model(f, a, b, eps1, s, fa, fb, fm, depth) is Some,
        refine_model(f, a, b, eps2, s, fa, fb, fm, depth) is Some,
    ensures
        refine_model(f, a, b, eps1, s, fa, fb, fm, depth)->Some_0.calls <= refine_model(
            f,
            a,
            b,
            eps2,
            s,
            fa,
            fb,
            fm,
            depth,
        )->Some_0.calls,
    decreases depth,
{
    let r1 = refine_model(f, a, b, eps1, s, fa, fb, fm, depth);
    let r2 = refine_model(f, a, b, eps2, s, fa, fb, fm, depth);
    // Everything up to the acceptance test is shared by the two runs.
    let (m, lm, rm) = seg_points(a, b)->Some_0;
    let flm = fval(f, lm);
    let frm = fval(f, rm);
    let h26 = half_scale(a, b)->Some_0;
    let sl = panel_checked(h26, fa, flm, fm)->Some_0;
    let sr = panel_checked(h26, fm, frm, fb)->Some_0;
    let s2 = plus_checked(sl, sr)->Some_0;
    let diff = minus_checked(s2, s)->Some_0;
    let err = times_checked(diff.abs_val(), fifteenth_frac())->Some_0;
    if err.le_val(eps2) {
        // The tighter run accepts here, so the looser one does too.
        crate::frac::lemma_le_val_trans(err, eps2, eps1);
    } else if depth != 0 {
        let dm1 = (depth - 1) as nat;
        let e2h = times_checked(eps2, half_frac())->Some_0;
        let l2 = refine_model(f, a, m, e2h, sl, fa, fm, flm, dm1);
        let rr2 = refine_model(f, m, b, e2h, sr, fm, fb, frm, dm1);
        lemma_refine_calls_bounded(f, a, m, e2h, sl, fa, fm, flm, dm1);
        lemma_refine_calls_bounded(f, m, b, e2h, sr, fm, fb, frm, dm1);
        if err.le_val(eps1) {
            // Only the tighter run splits; one call never exceeds three.
            assert(r1->Some_0.calls == 1);
        } else {
            // Both runs split, and the halved budgets stay ordered.
            let e1h = times_checked(eps1, half_frac())->Some_0;
            crate::frac::lemma_le_scale(eps2, eps1, half_frac());
            lemma_mul_strictly_positive(eps1.den, 2);
            lemma_mul_strictly_positive(eps2.den, 2);
            crate::frac::lemma_norm_fidelity(eps1.times(half_frac()));
            crate::frac::lemma_norm_fidelity(eps2.times(half_frac()));
            crate::frac::lemma_le_congruent(
                e2h,
                e1h,
                eps2.times(half_frac()),
                eps1.times(half_frac()),
            );
            lemma_tolerance_monotone(f, a, m, e1h, e2h, sl, fa, fm, flm, dm1);
            lemma_tolerance_monotone(f, m, b, e1h, e2h, sr, fm, fb, frm, dm1);
        }
    }
}

/// Zero-width law: over the interval `[a, a]` every estimate collapses to
/// the exact canonical zero, accepted by the very first refinement call.
pub proof fn lemma_zero_width<I: Integrand + ?Sized>(f: &I, a: Frac, tol: Frac, depth: nat)
    requires
        a.wf(),
        tol.wf(),
        frac_zero().lt_val(tol),
        integrate_model(f, a, a, tol, depth) is Some,
    ensures
        integrate_model(f, a, a, tol, depth)->Some_0 == (RunModel {
            value: frac_zero(),
            calls: 1,
        }),
{
    lemma_mul_strictly_positive(a.den, a.den);
    // The width of the interval is exactly zero.
    assert(a.minus(a) == (Frac { num: 0, den: a.den * a.den }));
    lemma_norm_zero(a.den * a.den);
    assert(minus_checked(a, a) == Some(frac_zero()));
    // Scaling zero by any positive constant keeps the canonical zero.
    lemma_norm_zero(2);
    lemma_norm_zero(6);
    lemma_norm_zero(15);
    assert(times_checked(frac_zero(), half_frac()) == Some(frac_zero()));
    assert(times_checked(frac_zero(), sixth_frac()) == Some(frac_zero()));
    assert(times_checked(frac_zero(), fifteenth_frac()) == Some(frac_zero()));
    assert(half_scale(a, a) == Some(frac_zero()));
    // A panel with zero width is the canonical zero, whatever the weights.
    let fa = fval(f, a);
    let ab = plus_checked(a, a)->Some_0;
    let m = times_checked(ab, half_frac())->Some_0;
    let fm = fval(f, m);
    let wm = weights_checked(fa, fm, fa)->Some_0;
    assert(wm.den >= 1 && panel_checked(frac_zero(), fa, fm, fa) == Some(frac_zero())) by {
        lemma_norm_zero(wm.den);
    }
    assert(integrate_model(f, a, a, tol, depth) == refine_model(
        f,
        a,
        a,
        tol,
        frac_zero(),
        fa,
        fa,
        fm,
        depth,
    ));
    // Inside the refinement: both half panels are zero, so the refined
    // estimate, the error and the correction are all the canonical zero.
    let (m2, lm, rm) = seg_points(a, a)->Some_0;
    let flm = fval(f, lm);
    let frm = fval(f, rm);
    let wl = weights_checked(fa, flm, fm)->Some_0;
    let wr = weights_checked(fm, frm, fa)->Some_0;
    assert(wl.den >= 1 && panel_checked(frac_zero(), fa, flm, fm) == Some(frac_zero())) by {
        lemma_norm_zero(wl.den);
    }
    assert(wr.den >= 1 && panel_checked(frac_zero(), fm, frm, fa) == Some(frac_zero())) by {
        lemma_norm_zero(wr.den);
    }
    assert(frac_zero().plus(frac_zero()) == (Frac { num: 0, den: 1 }));
    lemma_norm_zero(1);
    assert(plus_checked(frac_zero(), frac_zero()) == Some(frac_zero()));
    assert(frac_zero().minus(frac_zero()) == (Frac { num: 0, den: 1 }));
    assert(minus_checked(frac_zero(), frac_zero()) == Some(frac_zero()));
    assert(frac_zero().abs_val() == frac_zero());
    // The zero error estimate meets any positive tolerance at once.
    assert(frac_zero().le_val(tol));
}

} // verus!
