use quadrature::rat::Rat;

fn q(n: i64, d: u64) -> Rat {
    Rat::new(n, d).unwrap()
}

#[test]
fn new_reduces_to_lowest_terms() {
    let half = q(2, 4);
    assert_eq!(half.numer(), 1);
    assert_eq!(half.denom(), 2);
    assert_eq!(half, q(1, 2));
    let r = q(6, 4);
    assert_eq!(r.numer(), 3);
    assert_eq!(r.denom(), 2);
    let neg = q(-10, 15);
    assert_eq!(neg.numer(), -2);
    assert_eq!(neg.denom(), 3);
}

#[test]
fn new_rejects_zero_denominator() {
    assert!(Rat::new(1, 0).is_none());
    assert!(Rat::new(i64::MIN, 5).is_none());
    assert!(Rat::new(i64::MIN + 1, 5).is_some());
}

#[test]
fn plus_is_exact() {
    let r = q(1, 2).plus(&q(1, 3)).unwrap();
    assert_eq!(r, q(5, 6));
    let s = q(-1, 2).plus(&q(1, 2)).unwrap();
    assert_eq!(s.numer(), 0);
    assert_eq!(s.denom(), 1);
}

#[test]
fn minus_is_exact() {
    let r = q(1, 2).minus(&q(1, 3)).unwrap();
    assert_eq!(r, q(1, 6));
    let s = q(1, 3).minus(&q(1, 2)).unwrap();
    assert_eq!(s, q(-1, 6));
}

#[test]
fn times_is_exact_and_reduced() {
    let r = q(2, 3).times(&q(9, 4)).unwrap();
    assert_eq!(r, q(3, 2));
    let s = q(-2, 3).times(&q(3, 2)).unwrap();
    assert_eq!(s, q(-1, 1));
}

#[test]
fn neg_and_abs() {
    let r = q(-3, 4);
    assert_eq!(r.neg(), q(3, 4));
    assert_eq!(r.abs(), q(3, 4));
    assert_eq!(q(3, 4).abs(), q(3, 4));
    assert_eq!(q(0, 1).abs(), q(0, 1));
}

#[test]
fn comparisons_are_exact() {
    assert!(q(1, 3).lt(&q(1, 2)));
    assert!(q(1, 3).le(&q(1, 2)));
    assert!(!q(1, 2).lt(&q(1, 3)));
    assert!(q(2, 4).le(&q(1, 2)));
    assert!(!q(2, 4).lt(&q(1, 2)));
    assert!(q(-1, 2).lt(&q(1, 1000000)));
}

#[test]
fn plus_reports_range_exhaustion() {
    let big = q(i64::MAX, 1);
    assert!(big.plus(&big).is_none());
    // A sum that reduces back into range is still exact.
    let r = q(i64::MAX, 2).plus(&q(i64::MAX, 2)).unwrap();
    assert_eq!(r, q(i64::MAX, 1));
}

#[test]
fn times_reports_range_exhaustion() {
    let big = q(i64::MAX, 1);
    assert!(big.times(&big).is_none());
    assert!(big.times(&q(1, 1)).is_some());
}

#[test]
fn from_int_matches_new() {
    let r = Rat::from_int(-7);
    assert_eq!(r, q(-7, 1));
    assert_eq!(r.numer(), -7);
    assert_eq!(r.denom(), 1);
}
