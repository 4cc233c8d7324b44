//! Fixed-step quadrature rules, used as reference baselines for the
//! adaptive engine.
//!
//! Both rules split `[a, b]` into `n` equal steps and combine the sampled
//! integrand values with the classical trapezoid or Simpson weights. As
//! everywhere in this crate, the arithmetic is exact checked rational
//! arithmetic, and each contract pins the result to a mirrored
//! specification of the same sum.

use vstd::prelude::*;

verus! {

use crate::frac::Frac;
use crate::frac::frac_zero;
use crate::frac::plus_checked;
use crate::frac::minus_checked;
use crate::frac::times_checked;
use crate::engine::fval;
use crate::engine::half_frac;
use crate::engine::four_frac;
use crate::integrand::Integrand;
use crate::rat::Rat;
use crate::rat::view_opt;

/// One third.
pub open spec fn third_frac() -> Frac {
    Frac { num: 1, den: 3 }
}

/// Two.
pub open spec fn two_frac() -> Frac {
    Frac { num: 2, den: 1 }
}

/// The `i`-th sample point `a + i·h`, through checked arithmetic.
pub open spec fn sample_at(a: Frac, h: Frac, i: int) -> Option<Frac> {
    match times_checked(h, Frac { num: i, den: 1 }) {
        Some(t) => plus_checked(a, t),
        None => None,
    }
}

/// Sum of the integrand over the interior sample points `1..=i`.
pub open spec fn interior_sum<I: Integrand + ?Sized>(
    f: &I,
    a: Frac,
    h: Frac,
    i: int,
) -> Option<Frac>
    decreases i,
    when i >= 0
{
    if i <= 0 {
        Some(frac_zero())
    } else {
        match interior_sum(f, a, h, i - 1) {
            None => None,
            Some(acc) => match sample_at(a, h, i) {
                None => None,
                Some(xi) => if !f.defined(xi) {
                    None
                } else {
                    plus_checked(acc, fval(f, xi))
                },
            },
        }
    }
}

/// Odd- and even-indexed interior sums over the sample points `1..=i`,
/// as Simpson's rule needs them.
pub open spec fn parity_sums<I: Integrand + ?Sized>(
    f: &I,
    a: Frac,
    h: Frac,
    i: int,
) -> Option<(Frac, Frac)>
    decreases i,
    when i >= 0
{
    if i <= 0 {
        Some((frac_zero(), frac_zero()))
    } else {
        match parity_sums(f, a, h, i - 1) {
            None => None,
            Some((odd, even)) => match sample_at(a, h, i) {
                None => None,
                Some(xi) => if !f.defined(xi) {
                    None
                } else if i % 2 == 0 {
                    match plus_checked(even, fval(f, xi)) {
                        None => None,
                        Some(e2) => Some((odd, e2)),
                    }
                } else {
                    match plus_checked(odd, fval(f, xi)) {
                        None => None,
                        Some(o2) => Some((o2, even)),
                    }
                },
            },
        }
    }
}

/// The step width `(b - a)/n`, through checked arithmetic.
pub open spec fn step_width(a: Frac, b: Frac, n: int) -> Option<Frac> {
    match minus_checked(b, a) {
        Some(d) => times_checked(d, Frac { num: 1, den: n }),
        None => None,
    }
}

/// The whole trapezoid-rule computation:
/// `h·(½·f(a) + Σ f(a+i·h) + ½·f(b))`.
pub open spec fn trapezoid_model<I: Integrand + ?Sized>(
    f: &I,
    a: Frac,
    b: Frac,
    n: int,
) -> Option<Frac> {
    if !f.defined(a) || !f.defined(b) {
        None
    } else {
        match step_width(a, b, n) {
            None => None,
            Some(h) => match interior_sum(f, a, h, n - 1) {
                None => None,
                Some(sum) => match times_checked(half_frac(), fval(f, a)) {
                    None => None,
                    Some(ta) => match times_checked(half_frac(), fval(f, b)) {
                        None => None,
                        Some(tb) => match plus_checked(ta, sum) {
                            None => None,
                            Some(u) => match plus_checked(u, tb) {
                                None => None,
                                Some(w) => times_checked(h, w),
                            },
                        },
                    },
                },
            },
        }
    }
}

/// The whole fixed-step Simpson computation:
/// `(h/3)·(f(a) + 4·Σ_odd + 2·Σ_even + f(b))`.
pub open spec fn simpson_model<I: Integrand + ?Sized>(
    f: &I,
    a: Frac,
    b: Frac,
    n: int,
) -> Option<Frac> {
    if !f.defined(a) || !f.defined(b) {
        None
    } else {
        match step_width(a, b, n) {
            None => None,
            Some(h) => match parity_sums(f, a, h, n - 1) {
                None => None,
                Some((odd, even)) => match times_checked(h, third_frac()) {
                    None => None,
                    Some(h3) => match times_checked(four_frac(), odd) {
                        None => None,
                        Some(t4) => match times_checked(two_frac(), even) {
                            None => None,
                            Some(t2) => match plus_checked(fval(f, a), t4) {
                                None => None,
                                Some(u1) => match plus_checked(u1, t2) {
                                    None => None,
                                    Some(u2) => match plus_checked(u2, fval(f, b)) {
                                        None => None,
                                        Some(w) => times_checked(h3, w),
                                    },
                                },
                            },
                        },
                    },
                },
            },
        }
    }
}

/// A failed interior sample poisons every longer sum.
proof fn lemma_interior_sum_none<I: Integrand + ?Sized>(f: &I, a: Frac, h: Frac, i: int, j: int)
    requires
        0 <= i <= j,
        interior_sum(f, a, h, i) is None,
    ensures
        interior_sum(f, a, h, j) is None,
    decreases j - i,
{
    if i < j {
        lemma_interior_sum_none(f, a, h, i, j - 1);
    }
}

/// A failed parity sample poisons every longer pair of sums.
proof fn lemma_parity_sums_none<I: Integrand + ?Sized>(f: &I, a: Frac, h: Frac, i: int, j: int)
    requires
        0 <= i <= j,
        parity_sums(f, a, h, i) is None,
    ensures
        parity_sums(f, a, h, j) is None,
    decreases j - i,
{
    if i < j {
        lemma_parity_sums_none(f, a, h, i, j - 1);
    }
}

/// Composite trapezoid rule over `n` equal steps.
///
/// `None` exactly when some exact intermediate value, or an integrand
/// value at a sample point, leaves the representable range.
#[verifier::loop_isolation(false)]
pub fn trapezoidal_rule<I: Integrand>(f: &I, a: &Rat, b: &Rat, n: u32) -> (r: Option<Rat>)
    requires
        f.wf(),
        a.wf(),
        b.wf(),
        n >= 1,
    ensures
        view_opt(r) == trapezoid_model(f, a@, b@, n as int),
{
    let fa = match f.eval(a) {
        Some(v) => v,
        None => {
            return None;
        },
    };
    let fb = match f.eval(b) {
        Some(v) => v,
        None => {
            return None;
        },
    };
    let inv_n = Rat::from_parts(1, n as u64);
    let d = match b.minus(a) {
        Some(v) => v,
        None => {
            return None;
        },
    };
    let h = match d.times(&inv_n) {
        Some(v) => v,
        None => {
            return None;
        },
    };
    let mut sum = Rat::from_int(0);
    let mut i: u32 = 1;
    proof {
        assert(interior_sum(f, a@, h@, 0) == Some(frac_zero()));
    }
    while i < n
        invariant
            1 <= i <= n,
            f.wf(),
            a.wf(),
            h.wf(),
            sum.wf(),
            interior_sum(f, a@, h@, i - 1) == Some(sum@),
        decreases n - i,
    {
        let idx = Rat::from_int(i as i64);
        let t = match h.times(&idx) {
            Some(v) => v,
            None => {
                proof {
                    assert(interior_sum(f, a@, h@, i as int) is None);
                    lemma_interior_sum_none(f, a@, h@, i as int, n - 1);
                }
                return None;
            },
        };
        let xi = match a.plus(&t) {
            Some(v) => v,
            None => {
                proof {
                    assert(interior_sum(f, a@, h@, i as int) is None);
                    lemma_interior_sum_none(f, a@, h@, i as int, n - 1);
                }
                return None;
            },
        };
        let fxi = match f.eval(&xi) {
            Some(v) => v,
            None => {
                proof {
                    assert(interior_sum(f, a@, h@, i as int) is None);
                    lemma_interior_sum_none(f, a@, h@, i as int, n - 1);
                }
                return None;
            },
        };
        sum = match sum.plus(&fxi) {
            Some(v) => v,
            None => {
                proof {
                    assert(interior_sum(f, a@, h@, i as int) is None);
                    lemma_interior_sum_none(f, a@, h@, i as int, n - 1);
                }
                return None;
            },
        };
        i = i + 1;
    }
    let half = Rat::from_parts(1, 2);
    let ta = match half.times(&fa) {
        Some(v) => v,
        None => {
            return None;
        },
    };
    let tb = match half.times(&fb) {
        Some(v) => v,
        None => {
            return None;
        },
    };
    let u = match ta.plus(&sum) {
        Some(v) => v,
        None => {
            return None;
        },
    };
    let w = match u.plus(&tb) {
        Some(v) => v,
        None => {
            return None;
        },
    };
    h.times(&w)
}

/// Composite Simpson rule over `n` equal steps; `n` must be even.
///
/// `None` exactly when some exact intermediate value, or an integrand
/// value at a sample point, leaves the representable range.
#[verifier::loop_isolation(false)]
pub fn simpsons_rule<I: Integrand>(f: &I, a: &Rat, b: &Rat, n: u32) -> (r: Option<Rat>)
    requires
        f.wf(),
        a.wf(),
        b.wf(),
        n >= 2,
        n % 2 == 0,
    ensures
        view_opt(r) == simpson_model(f, a@, b@, n as int),
{
    let fa = match f.eval(a) {
        Some(v) => v,
        None => {
            return None;
        },
    };
    let fb = match f.eval(b) {
        Some(v) => v,
        None => {
            return None;
        },
    };
    let inv_n = Rat::from_parts(1, n as u64);
    let d = match b.minus(a) {
        Some(v) => v,
        None => {
            return None;
        },
    };
    let h = match d.times(&inv_n) {
        Some(v) => v,
        None => {
            return None;
        },
    };
    let mut sum_odd = Rat::from_int(0);
    let mut sum_even = Rat::from_int(0);
    let mut i: u32 = 1;
    proof {
        assert(parity_sums(f, a@, h@, 0) == Some((frac_zero(), frac_zero())));
    }
    while i < n
        invariant
            1 <= i <= n,
            f.wf(),
            a.wf(),
            h.wf(),
            sum_odd.wf(),
            sum_even.wf(),
            parity_sums(f, a@, h@, i - 1) == Some((sum_odd@, sum_even@)),
        decreases n - i,
    {
        let idx = Rat::from_int(i as i64);
        let t = match h.times(&idx) {
            Some(v) => v,
            None => {
                proof {
                    assert(parity_sums(f, a@, h@, i as int) is None);
                    lemma_parity_sums_none(f, a@, h@, i as int, n - 1);
                }
                return None;
            },
        };
        let xi = match a.plus(&t) {
            Some(v) => v,
            None => {
                proof {
                    assert(parity_sums(f, a@, h@, i as int) is None);
                    lemma_parity_sums_none(f, a@, h@, i as int, n - 1);
                }
                return None;
            },
        };
        let fxi = match f.eval(&xi) {
            Some(v) => v,
            None => {
                proof {
                    assert(parity_sums(f, a@, h@, i as int) is None);
                    lemma_parity_sums_none(f, a@, h@, i as int, n - 1);
                }
                return None;
            },
        };
        if i % 2 == 0 {
            sum_even = match sum_even.plus(&fxi) {
                Some(v) => v,
                None => {
                    proof {
                        assert(parity_sums(f, a@, h@, i as int) is None);
                        lemma_parity_sums_none(f, a@, h@, i as int, n - 1);
                    }
                    return None;
                },
            };
        } else {
            sum_odd = match sum_odd.plus(&fxi) {
                Some(v) => v,
                None => {
                    proof {
                        assert(parity_sums(f, a@, h@, i as int) is None);
                        lemma_parity_sums_none(f, a@, h@, i as int, n - 1);
                    }
                    return None;
                },
            };
        }
        i = i + 1;
    }
    let third = Rat::from_parts(1, 3);
    let four = Rat::from_parts(4, 1);
    let two = Rat::from_parts(2, 1);
    let h3 = match h.times(&third) {
        Some(v) => v,
        None => {
            return None;
        },
    };
    let t4 = match four.times(&sum_odd) {
        Some(v) => v,
        None => {
            return None;
        },
    };
    let t2 = match two.times(&sum_even) {
        Some(v) => v,
        None => {
            return None;
        },
    };
    let u1 = match fa.plus(&t4) {
        Some(v) => v,
        None => {
            return None;
        },
    };
    let u2 = match u1.plus(&t2) {
        Some(v) => v,
        None => {
            return None;
        },
    };
    let w = match u2.plus(&fb) {
        Some(v) => v,
        None => {
            return None;
        },
    };
    h3.times(&w)
}

} // verus!
