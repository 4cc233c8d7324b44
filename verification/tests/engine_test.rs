use quadrature::engine::integrate;
use quadrature::engine::integrate_report;
use quadrature::engine::integrate_report_with_depth;
use quadrature::engine::QuadError;
use quadrature::integrand::Poly;
use quadrature::integrand::SharpOscillator;
use quadrature::rat::Rat;

fn q(n: i64, d: u64) -> Rat {
    Rat::new(n, d).unwrap()
}

fn poly(coeffs: &[(i64, u64)]) -> Poly {
    let mut v: Vec<Rat> = Vec::new();
    for &(n, d) in coeffs {
        v.push(q(n, d));
    }
    Poly::new(v)
}

fn to_f64(r: &Rat) -> f64 {
    r.numer() as f64 / r.denom() as f64
}

#[test]
fn cube_is_integrated_exactly() {
    // ∫₀¹ x³ dx = 1/4, met exactly: Simpson's rule is exact on cubics, so
    // the very first refinement call accepts.
    let p = poly(&[(0, 1), (0, 1), (0, 1), (1, 1)]);
    let r = integrate(&p, &q(0, 1), &q(1, 1), &q(1, 1000000)).unwrap();
    assert_eq!(r, q(1, 4));
}

#[test]
fn general_cubic_is_integrated_exactly() {
    // p(x) = x³ - 2x² + 3x - 4 over [-1, 2]: the exact integral is -39/4.
    let p = poly(&[(-4, 1), (3, 1), (-2, 1), (1, 1)]);
    let r = integrate(&p, &q(-1, 1), &q(2, 1), &q(1, 1000)).unwrap();
    assert_eq!(r, q(-39, 4));
}

#[test]
fn quadratic_with_fractional_bounds_is_exact() {
    // ∫ x² over [1/3, 5/2] = (x³/3) between the bounds:
    // (125/8 - 1/27)/3 = 3367/648.
    let p = poly(&[(0, 1), (0, 1), (1, 1)]);
    let r = integrate(&p, &q(1, 3), &q(5, 2), &q(1, 1000)).unwrap();
    assert_eq!(r, q(3367, 648));
}

#[test]
fn cubic_costs_exactly_five_evaluations() {
    // Three seed evaluations plus two in the single refinement call.
    let p = poly(&[(0, 1), (0, 1), (0, 1), (1, 1)]);
    let rep = integrate_report(&p, &q(0, 1), &q(1, 1), &q(1, 1000000)).unwrap();
    assert_eq!(rep.evals, 5);
    assert_eq!(rep.value, q(1, 4));
}

#[test]
fn zero_width_interval_integrates_to_zero() {
    let p = poly(&[(7, 2), (-3, 1), (1, 5), (2, 1)]);
    let a = q(7, 3);
    let r = integrate(&p, &a, &a, &q(1, 10)).unwrap();
    assert_eq!(r, q(0, 1));
    let r2 = integrate(&SharpOscillator, &q(-5, 4), &q(-5, 4), &q(1, 100)).unwrap();
    assert_eq!(r2, q(0, 1));
}

#[test]
fn evaluation_count_is_three_plus_twice_the_refine_calls() {
    // A quartic is not integrated exactly by one panel, so the engine
    // must split; the count always has the form 3 + 2k.
    let p = poly(&[(0, 1), (0, 1), (0, 1), (0, 1), (1, 1)]);
    let rep = integrate_report(&p, &q(0, 1), &q(1, 1), &q(1, 1000000)).unwrap();
    assert!(rep.evals > 5);
    assert_eq!((rep.evals - 3) % 2, 0);
}

#[test]
fn tolerance_tightening_never_worsens_the_result() {
    // ∫₀¹ x⁴ dx = 1/5. Tighter budgets may only decrease the error and
    // increase the work.
    let p = poly(&[(0, 1), (0, 1), (0, 1), (0, 1), (1, 1)]);
    let a = q(0, 1);
    let b = q(1, 1);
    let exact = 0.2f64;
    let mut last_err = f64::INFINITY;
    let mut last_evals = 0u64;
    for tol in [q(1, 100), q(1, 10000), q(1, 1000000)] {
        let rep = integrate_report(&p, &a, &b, &tol).unwrap();
        let err = (to_f64(&rep.value) - exact).abs();
        assert!(err <= to_f64(&tol));
        assert!(err <= last_err);
        assert!(rep.evals >= last_evals);
        last_err = err;
        last_evals = rep.evals;
    }
}

#[test]
fn depth_ceiling_caps_the_work_on_a_defiant_integrand() {
    // The oscillator's error estimate grows with resolution, so no node
    // ever accepts early: the tree is full, with 2^(depth+1) - 1 calls.
    let rep = integrate_report_with_depth(
        &SharpOscillator,
        &q(0, 1),
        &q(1, 1),
        &q(1, 1000000000),
        4,
    )
    .unwrap();
    assert_eq!(rep.evals, 3 + 2 * (2u64.pow(5) - 1));
}

#[test]
fn invalid_interval_is_reported() {
    let p = poly(&[(1, 1)]);
    let r = integrate(&p, &q(1, 1), &q(0, 1), &q(1, 10));
    assert_eq!(r, Err(QuadError::InvalidInterval));
}

#[test]
fn invalid_tolerance_is_reported() {
    let p = poly(&[(1, 1)]);
    assert_eq!(
        integrate(&p, &q(0, 1), &q(1, 1), &q(0, 1)),
        Err(QuadError::InvalidTolerance)
    );
    assert_eq!(
        integrate(&p, &q(0, 1), &q(1, 1), &q(-1, 10)),
        Err(QuadError::InvalidTolerance)
    );
}

#[test]
fn range_exhaustion_is_reported() {
    // The cubic coefficient is so large that evaluating at the right
    // endpoint already leaves the 64-bit range.
    let p = poly(&[(0, 1), (0, 1), (0, 1), (i64::MAX, 1)]);
    let r = integrate(&p, &q(1, 1), &q(3, 1), &q(1, 10));
    assert_eq!(r, Err(QuadError::OutOfRange));
}

#[test]
fn constant_and_linear_integrands_are_exact() {
    // ∫ of 5 over [-2, 6] = 40; ∫ of 2x + 1 over [0, 3] = 12.
    let c = poly(&[(5, 1)]);
    assert_eq!(
        integrate(&c, &q(-2, 1), &q(6, 1), &q(1, 10)).unwrap(),
        q(40, 1)
    );
    let l = poly(&[(1, 1), (2, 1)]);
    assert_eq!(
        integrate(&l, &q(0, 1), &q(3, 1), &q(1, 10)).unwrap(),
        q(12, 1)
    );
}

#[test]
fn quartic_converges_to_the_true_integral() {
    // ∫₀² x⁴ dx = 32/5 = 6.4, approached within a tight tolerance.
    let p = poly(&[(0, 1), (0, 1), (0, 1), (0, 1), (1, 1)]);
    let rep = integrate_report(&p, &q(0, 1), &q(2, 1), &q(1, 100000)).unwrap();
    let err = (to_f64(&rep.value) - 6.4).abs();
    assert!(err <= 1e-5);
}
