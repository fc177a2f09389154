//! Fixed-point numerics for the internal rate of return.
//!
//! Rates are solved in a logarithmic parameter `p` with `x = e^p - 1`, so the
//! Newton iteration ranges over all reals while the rate stays above -1.  All
//! arithmetic is exact integer arithmetic at scale [`Q`] (for `p`, and for the
//! exponential) or [`crate::utility::FIXED_SCALE`] (for money), with explicit
//! magnitude guards; a computation that would leave the guarded range reports
//! no convergence instead of wrapping.  Every function's result equals a spec
//! mirror of the same iteration, so the contracts pin the computed values down
//! exactly.

use vstd::prelude::*;

verus! {

/// Scale of the logarithmic parameter and of the exponential: a raw value `v`
/// stands for `v / Q`.
pub const Q: i128 = 1_000_000_000;

/// Magnitude guard for the exponential's intermediate squarings.
pub const EXP_LIM: i128 = 10_000_000_000_000_000_000;

/// Magnitude guard for the summed objective and derivative terms.
pub const ACC_LIM: i128 = 10_000_000_000_000_000_000_000_000_000;

/// Magnitude guard for an investment or end value handed to the solver.
pub const INV_LIM: i128 = 1_000_000_000_000_000;

/// Magnitude guard for a day count handed to the solver.
pub const DAYS_LIM: i128 = 4_000_000;

/// Magnitude guard for the logarithmic parameter during iteration.
pub const P_LIM: i128 = 100_000_000_000;

/// Absolute tolerance on the logarithmic parameter (1e-6 at scale `Q`).
pub const P_TOL: i128 = 1_000;

/// Iteration budget of the Newton solver.
pub const MAX_ITER: u32 = 1_000;

/// How the solver can fail.
#[derive(Clone, Copy, Debug, PartialEq, Eq, Structural)]
pub enum IrrError {
    /// Every investment is zero: the rate equation has no informative root.
    DegenerateInput,
    /// The iteration budget ran out, or a value left the guarded range.
    NoConvergence,
}

/// Magnitude of an integer.
pub open spec fn absi(x: int) -> int {
    if x < 0 {
        -x
    } else {
        x
    }
}

/// Integer division truncated toward zero (the sign-symmetric quotient).
pub open spec fn dtr(a: int, b: int) -> int {
    let q = absi(a) / absi(b);
    if (a >= 0) == (b >= 0) {
        q
    } else {
        -q
    }
}

/// Truncated division on `i128`, with a magnitude bound on the quotient.
pub fn div_q(a: i128, b: i128) -> (r: i128)
    requires
        b != 0,
        a != i128::MIN,
        b != i128::MIN,
    ensures
        r == dtr(a as int, b as int),
        absi(b as int) * absi(r as int) <= absi(a as int),
{
    proof {
        vstd::arithmetic::div_mod::lemma_fundamental_div_mod(absi(a as int), absi(b as int));
        vstd::arithmetic::div_mod::lemma_div_pos_is_pos(absi(a as int), absi(b as int));
        assert(absi(b as int) * (absi(a as int) / absi(b as int)) <= absi(a as int));
        assert(absi(a as int) / absi(b as int) <= absi(a as int) * 1) by {
            vstd::arithmetic::div_mod::lemma_div_is_ordered_by_denominator(
                absi(a as int),
                1,
                absi(b as int),
            );
            vstd::arithmetic::div_mod::lemma_div_basics(absi(a as int));
        }
    }
    a.checked_div(b).unwrap()
}

/// Magnitudes multiply: `|a| <= aa` and `|b| <= bb` bound `|a * b|`.
#[verifier::nonlinear]
pub proof fn lemma_abs_mul(a: int, b: int, aa: int, bb: int)
    requires
        absi(a) <= aa,
        absi(b) <= bb,
    ensures
        absi(a * b) <= aa * bb,
{
}

/// Halve `x` until its magnitude is at most `Q`, counting the halvings;
/// `None` when the step budget runs out (it cannot for an `i128` argument).
pub open spec fn exp_reduce(x: int, fuel: nat) -> Option<(int, nat)>
    decreases fuel,
{
    if absi(x) <= Q as int {
        Some((x, 0nat))
    } else if fuel == 0 {
        None
    } else {
        match exp_reduce(dtr(x, 2), (fuel - 1) as nat) {
            Some((v, s)) => Some((v, (s + 1) as nat)),
            None => None,
        }
    }
}

/// Remaining terms of the Taylor expansion, from degree `k` on, with the
/// previous term and the accumulated sum.
pub open spec fn exp_taylor_from(v: int, k: int, term: int, acc: int) -> int
    decreases 14 - k,
{
    if k > 13 {
        acc
    } else {
        let t = dtr(term * v, k * (Q as int));
        exp_taylor_from(v, k + 1, t, acc + t)
    }
}

/// Truncated Taylor polynomial of `e^v` at scale `Q`, for `|v| <= Q`.
pub open spec fn exp_taylor(v: int) -> int {
    exp_taylor_from(v, 2, v, Q + v)
}

/// Square `r` (at scale `Q`) `s` times, guarding each squaring's magnitude.
pub open spec fn exp_square(r: int, s: nat) -> Option<int>
    decreases s,
{
    if s == 0 {
        Some(r)
    } else if absi(r) > EXP_LIM as int {
        None
    } else {
        exp_square(dtr(r * r, Q as int), (s - 1) as nat)
    }
}

/// The fixed-point exponential: reduce, expand, square, with a final guard
/// that also rejects a result the truncation drove negative, so that a
/// returned value is always in `[0, EXP_LIM]`.
pub open spec fn exp_spec(x: int) -> Option<int> {
    match exp_reduce(x, 200) {
        None => None,
        Some((v, s)) => match exp_square(exp_taylor(v), s) {
            Some(r) => if r < 0 || r > EXP_LIM as int {
                None
            } else {
                Some(r)
            },
            None => None,
        },
    }
}

/// Taylor expansion at scale `Q` for a reduced argument.
fn exp_taylor_exec(v: i128) -> (r: i128)
    requires
        absi(v as int) <= Q,
    ensures
        r as int == exp_taylor(v as int),
        absi(r as int) <= 15 * (Q as int),
{
    let mut term: i128 = v;
    let mut acc: i128 = Q + v;
    let mut k: u32 = 2;
    while k <= 13
        invariant
            2 <= k <= 14,
            absi(term as int) <= Q,
            absi(acc as int) <= k * (Q as int),
            exp_taylor(v as int) == exp_taylor_from(v as int, k as int, term as int, acc as int),
            absi(v as int) <= Q,
        decreases 14 - k,
    {
        proof {
            lemma_abs_mul(term as int, v as int, Q as int, Q as int);
        }
        let t = div_q(term * v, (k as i128) * Q);
        proof {
            vstd::arithmetic::mul::lemma_mul_inequality(
                2 * (Q as int),
                (k as int) * (Q as int),
                absi(t as int),
            );
        }
        term = t;
        acc = acc + t;
        k = k + 1;
    }
    acc
}

/// `e^x` at scale `Q`, equal to its spec mirror [`exp_spec`].
pub fn exp_q(x: i128) -> (r: Option<i128>)
    requires
        x != i128::MIN,
    ensures
        match r {
            Some(v) => exp_spec(x as int) == Some(v as int) && 0 <= v && v <= EXP_LIM,
            None => exp_spec(x as int) is None,
        },
{
    let mut v = x;
    let mut s: u32 = 0;
    while (v > Q || v < -Q) && s < 200
        invariant
            v != i128::MIN,
            s <= 200,
            exp_reduce(x as int, 200) == match exp_reduce(v as int, (200 - s) as nat) {
                Some((fv, fs)) => Some((fv, (fs + s) as nat)),
                None => None::<(int, nat)>,
            },
        decreases 200 - s,
    {
        proof {
            assert(absi(v as int) > Q);
        }
        v = div_q(v, 2);
        s = s + 1;
    }
    if v > Q || v < -Q {
        proof {
            assert(exp_reduce(v as int, 0) is None);
        }
        return None;
    }
    proof {
        assert(exp_reduce(v as int, (200 - s) as nat) == Some((v as int, 0nat)));
        assert(exp_reduce(x as int, 200) == Some((v as int, s as nat)));
    }
    let mut r: i128 = exp_taylor_exec(v);
    let ghost taylor_r = r as int;
    let mut left = s;
    while left > 0
        invariant
            absi(r as int) <= 100_000_000_000_000_000_000_000_000_000,
            exp_square(taylor_r, s as nat) == exp_square(r as int, left as nat),
            exp_reduce(x as int, 200) == Some((v as int, s as nat)),
            taylor_r == exp_taylor(v as int),
        decreases left,
    {
        if r > EXP_LIM || r < -EXP_LIM {
            proof {
                assert(exp_square(r as int, left as nat) is None);
            }
            return None;
        }
        proof {
            lemma_abs_mul(r as int, r as int, EXP_LIM as int, EXP_LIM as int);
        }
        r = div_q(r * r, Q);
        left = left - 1;
    }
    proof {
        assert(exp_square(taylor_r, s as nat) == Some(r as int));
    }
    if r < 0 || r > EXP_LIM {
        None
    } else {
        Some(r)
    }
}

/// Objective and derivative sums of the rate equation at `p`, walked from
/// entry `i` with accumulators `af` and `ag`; `None` when a value leaves the
/// guarded range.
pub open spec fn eval_from(
    days: Seq<i64>,
    invs: Seq<i64>,
    p: int,
    i: nat,
    af: int,
    ag: int,
) -> Option<(int, int)>
    decreases days.len() - i,
{
    if i >= days.len() {
        Some((af, ag))
    } else {
        let d = days[i as int] as int;
        let w = invs[i as int] as int;
        if absi(d) > DAYS_LIM as int || absi(w) > INV_LIM as int {
            None
        } else {
            let tq = dtr(d * (Q as int), crate::utility::DAYS_PER_YEAR as int);
            let x = dtr(p * tq, Q as int);
            match exp_spec(x) {
                None => None,
                Some(e) => {
                    let term = dtr(w * e, Q as int);
                    let der = dtr(w * dtr(e * tq, Q as int), Q as int);
                    let naf = af + term;
                    let nag = ag + der;
                    if absi(naf) > ACC_LIM as int || absi(nag) > ACC_LIM as int {
                        None
                    } else {
                        eval_from(days, invs, p, (i + 1) as nat, naf, nag)
                    }
                },
            }
        }
    }
}

/// Evaluate the objective and derivative sums at `p`, mirroring [`eval_from`].
fn eval_terms(days: &Vec<i64>, invs: &Vec<i64>, p: i128) -> (r: Option<(i128, i128)>)
    requires
        days@.len() == invs@.len(),
        absi(p as int) <= P_LIM,
    ensures
        match r {
            Some((f, g)) => eval_from(days@, invs@, p as int, 0, 0, 0) == Some(
                (f as int, g as int),
            ) && absi(f as int) <= ACC_LIM && absi(g as int) <= ACC_LIM,
            None => eval_from(days@, invs@, p as int, 0, 0, 0) is None,
        },
{
    let mut af: i128 = 0;
    let mut ag: i128 = 0;
    let mut i: usize = 0;
    while i < days.len()
        invariant
            days@.len() == invs@.len(),
            i <= days@.len(),
            absi(p as int) <= P_LIM,
            absi(af as int) <= ACC_LIM,
            absi(ag as int) <= ACC_LIM,
            eval_from(days@, invs@, p as int, 0, 0, 0) == eval_from(
                days@,
                invs@,
                p as int,
                i as nat,
                af as int,
                ag as int,
            ),
        decreases days@.len() - i,
    {
        let d = days[i] as i128;
        let w = invs[i] as i128;
        if d > DAYS_LIM || d < -DAYS_LIM || w > INV_LIM || w < -INV_LIM {
            return None;
        }
        proof {
            lemma_abs_mul(d as int, Q as int, DAYS_LIM as int, Q as int);
        }
        let tq = div_q(d * Q, crate::utility::DAYS_PER_YEAR as i128);
        proof {
            assert(absi(tq as int) <= 12_000_000_000_000) by {
                assert(360 * absi(tq as int) <= absi(d * Q));
            }
            lemma_abs_mul(p as int, tq as int, P_LIM as int, 12_000_000_000_000);
        }
        let x = div_q(p * tq, Q);
        match exp_q(x) {
            None => {
                return None;
            },
            Some(e) => {
                proof {
                    lemma_abs_mul(w as int, e as int, INV_LIM as int, EXP_LIM as int);
                    lemma_abs_mul(e as int, tq as int, EXP_LIM as int, 12_000_000_000_000);
                }
                let term = div_q(w * e, Q);
                let inner = div_q(e * tq, Q);
                proof {
                    assert(absi(inner as int) <= 120_000_000_000_000_000_000_000) by {
                        assert((Q as int) * absi(inner as int) <= absi((e * tq) as int));
                    }
                    lemma_abs_mul(
                        w as int,
                        inner as int,
                        INV_LIM as int,
                        120_000_000_000_000_000_000_000,
                    );
                }
                let der = div_q(w * inner, Q);
                let naf = af + term;
                let nag = ag + der;
                if naf > ACC_LIM || naf < -ACC_LIM || nag > ACC_LIM || nag < -ACC_LIM {
                    return None;
                }
                af = naf;
                ag = nag;
                i = i + 1;
            },
        }
    }
    Some((af, ag))
}

/// The Newton iteration on the logarithmic parameter, `fuel` steps at most:
/// step to `p - f(p)/f'(p)`, stop within `P_TOL`, give up on a zero
/// derivative, an out-of-range parameter, or when the fuel runs out.
pub open spec fn newton_from(days: Seq<i64>, invs: Seq<i64>, end: int, p: int, fuel: nat) -> Option<
    int,
>
    decreases fuel,
{
    if fuel == 0 {
        None
    } else {
        match eval_from(days, invs, p, 0, 0, 0) {
            None => None,
            Some((sf, sg)) => {
                let f = end - sf;
                let g = -sg;
                if g == 0 {
                    None
                } else {
                    let np = p - dtr(f * (Q as int), g);
                    if absi(np) > P_LIM as int {
                        None
                    } else if absi(np - p) < P_TOL as int {
                        Some(np)
                    } else {
                        newton_from(days, invs, end, np, (fuel - 1) as nat)
                    }
                }
            },
        }
    }
}

/// Newton's method for the rate equation, mirroring [`newton_from`] with an
/// iteration budget of [`MAX_ITER`].
pub fn newton1d(days: &Vec<i64>, invs: &Vec<i64>, end_value: i64, p0: i128) -> (r: Option<i128>)
    requires
        days@.len() == invs@.len(),
        absi(p0 as int) <= P_LIM,
        absi(end_value as int) <= INV_LIM,
    ensures
        match r {
            Some(p) => newton_from(days@, invs@, end_value as int, p0 as int, MAX_ITER as nat)
                == Some(p as int) && absi(p as int) <= P_LIM,
            None => newton_from(days@, invs@, end_value as int, p0 as int, MAX_ITER as nat)
                is None,
        },
{
    let mut p = p0;
    let mut iter: u32 = 0;
    while iter < MAX_ITER
        invariant
            days@.len() == invs@.len(),
            iter <= MAX_ITER,
            absi(p as int) <= P_LIM,
            absi(end_value as int) <= INV_LIM,
            newton_from(days@, invs@, end_value as int, p0 as int, MAX_ITER as nat) == newton_from(
                days@,
                invs@,
                end_value as int,
                p as int,
                (MAX_ITER - iter) as nat,
            ),
        decreases MAX_ITER - iter,
    {
        match eval_terms(days, invs, p) {
            None => {
                return None;
            },
            Some((sf, sg)) => {
                let f = (end_value as i128) - sf;
                let g = -sg;
                if g == 0 {
                    return None;
                }
                proof {
                    lemma_abs_mul(f as int, Q as int, ACC_LIM + INV_LIM, Q as int);
                }
                let np = p - div_q(f * Q, g);
                if np > P_LIM || np < -P_LIM {
                    return None;
                }
                let diff = np - p;
                if -P_TOL < diff && diff < P_TOL {
                    return Some(np);
                }
                p = np;
                iter = iter + 1;
            },
        }
    }
    None
}

/// The Newton iteration for the natural logarithm: step `p` to
/// `p - 1 + a / e^p`, at scale `Q`, `fuel` steps at most.
pub open spec fn ln_from(a: int, p: int, fuel: nat) -> Option<int>
    decreases fuel,
{
    if fuel == 0 {
        None
    } else {
        match exp_spec(p) {
            None => None,
            Some(e) => if e <= 0 {
                None
            } else {
                let np = p - (Q as int) + dtr(a * (Q as int), e);
                if absi(np) > P_LIM as int {
                    None
                } else if absi(np - p) < P_TOL as int {
                    Some(np)
                } else {
                    ln_from(a, np, (fuel - 1) as nat)
                }
            },
        }
    }
}

/// `ln(a)` at scale `Q` for `a > 0`, `None` otherwise or without convergence.
pub open spec fn ln_spec(a: int) -> Option<int> {
    if a <= 0 {
        None
    } else {
        ln_from(a, 0, 100)
    }
}

/// The fixed-point natural logarithm, mirroring [`ln_spec`].
pub fn ln_q(a: i128) -> (r: Option<i128>)
    requires
        absi(a as int) <= 10_000_000_000_000_000_000_000,
    ensures
        match r {
            Some(p) => ln_spec(a as int) == Some(p as int) && absi(p as int) <= P_LIM,
            None => ln_spec(a as int) is None,
        },
{
    if a <= 0 {
        return None;
    }
    let mut p: i128 = 0;
    let mut fuel: u32 = 100;
    while fuel > 0
        invariant
            0 < a,
            absi(a as int) <= 10_000_000_000_000_000_000_000,
            fuel <= 100,
            absi(p as int) <= P_LIM,
            ln_spec(a as int) == ln_from(a as int, p as int, fuel as nat),
        decreases fuel,
    {
        match exp_q(p) {
            None => {
                return None;
            },
            Some(e) => {
                if e <= 0 {
                    return None;
                }
                proof {
                    lemma_abs_mul(a as int, Q as int, 10_000_000_000_000_000_000_000, Q as int);
                }
                let np = p - Q + div_q(a * Q, e);
                if np > P_LIM || np < -P_LIM {
                    return None;
                }
                let diff = np - p;
                if -P_TOL < diff && diff < P_TOL {
                    return Some(np);
                }
                p = np;
                fuel = fuel - 1;
            },
        }
    }
    None
}

/// Every investment is zero.
pub open spec fn all_zero(invs: Seq<i64>) -> bool {
    forall|i: int| 0 <= i < invs.len() ==> invs[i] == 0
}

/// The whole solve, for input that is not degenerate: seed
/// `p0 = ln(x0 + 1)`, run Newton on the logarithmic parameter, report
/// `x = e^p - 1` at scale [`crate::utility::FIXED_SCALE`].
pub open spec fn irr_model(days: Seq<i64>, invs: Seq<i64>, end: int, x0: int) -> Option<int> {
    if absi(end) > INV_LIM as int {
        None
    } else {
        match ln_spec((x0 + crate::utility::FIXED_SCALE as int) * 1000) {
            None => None,
            Some(p0) => match newton_from(days, invs, end, p0, MAX_ITER as nat) {
                None => None,
                Some(p) => match exp_spec(p) {
                    None => None,
                    Some(e) => Some(dtr(e - Q as int, 1000)),
                },
            },
        }
    }
}

/// Solve the internal rate of return of dated cash flows.
///
/// `days[i]` is the day count from flow `i` to the end date, `invs[i]` the
/// flow at scale [`crate::utility::FIXED_SCALE`], `end_value` the value the
/// flows must reach, and `x0` the initial rate guess.  All-zero flows are
/// rejected as degenerate; any other failure of the guarded iteration is
/// reported as no convergence.  A returned rate equals the spec mirror
/// [`irr_model`] exactly.
pub fn irr(days: &Vec<i64>, invs: &Vec<i64>, end_value: i64, x0: i64) -> (r: Result<i64, IrrError>)
    requires
        days@.len() == invs@.len(),
    ensures
        all_zero(invs@) <==> r == Err::<i64, IrrError>(IrrError::DegenerateInput),
        // the representation floor of the rate: `e^p >= 0` in fixed point,
        // so a returned rate is never below -100%
        r is Ok ==> r->Ok_0 as int >= -(crate::utility::FIXED_SCALE as int),
        !all_zero(invs@) ==> match irr_model(days@, invs@, end_value as int, x0 as int) {
            Some(v) => r == Ok::<i64, IrrError>(v as i64) && v == r->Ok_0 as int,
            None => r == Err::<i64, IrrError>(IrrError::NoConvergence),
        },
{
    let mut zeros = true;
    let mut i: usize = 0;
    while i < invs.len()
        invariant
            i <= invs@.len(),
            zeros <==> forall|j: int| 0 <= j < i ==> invs@[j] == 0,
        decreases invs@.len() - i,
    {
        if invs[i] != 0 {
            zeros = false;
        }
        i = i + 1;
    }
    if zeros {
        return Err(IrrError::DegenerateInput);
    }
    if end_value > INV_LIM as i64 || end_value < -(INV_LIM as i64) {
        return Err(IrrError::NoConvergence);
    }
    let a = ((x0 as i128) + (crate::utility::FIXED_SCALE as i128)) * 1000;
    let p0 = match ln_q(a) {
        None => {
            return Err(IrrError::NoConvergence);
        },
        Some(p0) => p0,
    };
    let p = match newton1d(days, invs, end_value, p0) {
        None => {
            return Err(IrrError::NoConvergence);
        },
        Some(p) => p,
    };
    let e = match exp_q(p) {
        None => {
            return Err(IrrError::NoConvergence);
        },
        Some(e) => e,
    };
    let x = div_q(e - Q, 1000);
    proof {
        assert(absi(x as int) <= EXP_LIM) by {
            assert(1000 * absi(x as int) <= absi((e - Q) as int));
        }
        assert(x as int >= -(crate::utility::FIXED_SCALE as int)) by {
            if (e as int) < Q as int {
                vstd::arithmetic::div_mod::lemma_div_is_ordered(
                    (Q as int) - e,
                    Q as int,
                    1000,
                );
            }
        }
    }
    Ok(x as i64)
}

} // verus!
