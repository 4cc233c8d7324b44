use quadrature::engine::integrate;
use quadrature::integrand::Poly;
use quadrature::rat::Rat;
use quadrature::rules::simpsons_rule;
use quadrature::rules::trapezoidal_rule;

fn q(n: i64, d: u64) -> Rat {
    Rat::new(n, d).unwrap()
}

fn poly(coeffs: &[(i64, u64)]) -> Poly {
    let mut v: Vec<Rat> = Vec::new();
    for &(n, d) in coeffs {
        v.push(q(n, d));
    }
    Poly::new(v)
}

#[test]
fn trapezoid_on_a_square() {
    // x² over [0,1] with four steps: ¼·(½·0 + 1/16 + 4/16 + 9/16 + ½·1)
    // = 11/32.
    let p = poly(&[(0, 1), (0, 1), (1, 1)]);
    let r = trapezoidal_rule(&p, &q(0, 1), &q(1, 1), 4).unwrap();
    assert_eq!(r, q(11, 32));
}

#[test]
fn trapezoid_is_exact_on_lines() {
    // 2x + 1 over [0, 3] = 12, already exact with one step.
    let p = poly(&[(1, 1), (2, 1)]);
    assert_eq!(trapezoidal_rule(&p, &q(0, 1), &q(3, 1), 1).unwrap(), q(12, 1));
    assert_eq!(trapezoidal_rule(&p, &q(0, 1), &q(3, 1), 3).unwrap(), q(12, 1));
}

#[test]
fn simpson_is_exact_on_cubes() {
    // x³ over [0, 2] with two steps: (1/3)·(0 + 4·1 + 8) = 4, the exact
    // integral.
    let p = poly(&[(0, 1), (0, 1), (0, 1), (1, 1)]);
    let r = simpsons_rule(&p, &q(0, 1), &q(2, 1), 2).unwrap();
    assert_eq!(r, q(4, 1));
}

#[test]
fn simpson_on_a_quartic_carries_the_classical_error() {
    // x⁴ over [0,1] with two steps gives 5/24, not the exact 1/5.
    let p = poly(&[(0, 1), (0, 1), (0, 1), (0, 1), (1, 1)]);
    let r = simpsons_rule(&p, &q(0, 1), &q(1, 1), 2).unwrap();
    assert_eq!(r, q(5, 24));
}

#[test]
fn adaptive_engine_beats_the_coarse_baselines() {
    // On x² over [0,1] the adaptive engine is exact (1/3), while the
    // four-step trapezoid baseline is off by 1/96.
    let p = poly(&[(0, 1), (0, 1), (1, 1)]);
    let adaptive = integrate(&p, &q(0, 1), &q(1, 1), &q(1, 1000)).unwrap();
    assert_eq!(adaptive, q(1, 3));
    let trap = trapezoidal_rule(&p, &q(0, 1), &q(1, 1), 4).unwrap();
    assert_eq!(trap.minus(&adaptive).unwrap(), q(1, 96));
}

#[test]
fn fixed_rules_refine_towards_the_integral() {
    // More steps bring the trapezoid estimate of x² over [0,1] closer to
    // 1/3: errors 1/24, 1/96, 1/384.
    let p = poly(&[(0, 1), (0, 1), (1, 1)]);
    let exact = q(1, 3);
    let e2 = trapezoidal_rule(&p, &q(0, 1), &q(1, 1), 2)
        .unwrap()
        .minus(&exact)
        .unwrap();
    let e4 = trapezoidal_rule(&p, &q(0, 1), &q(1, 1), 4)
        .unwrap()
        .minus(&exact)
        .unwrap();
    let e8 = trapezoidal_rule(&p, &q(0, 1), &q(1, 1), 8)
        .unwrap()
        .minus(&exact)
        .unwrap();
    assert_eq!(e2, q(1, 24));
    assert_eq!(e4, q(1, 96));
    assert_eq!(e8, q(1, 384));
}
