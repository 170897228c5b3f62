//! Line searching decides how far to step along a descent direction:
//! a golden section search over a unimodal objective, in fixed point.

use vstd::prelude::*;
use crate::error::Error;
use crate::num::{abs_i, div_tz, div_trunc, lemma_div_tz_abs, lemma_mul_abs, SCALE, WORK_LIM};

verus! {

/// The golden ratio in raw units.
pub const TAU: i64 = 1_618_034;

/// The probe point `a + (b - a) / tau` of the current interval.
pub open spec fn gss_alpha(a: int, b: int) -> int {
    a + div_tz((b - a) * SCALE, TAU as int)
}

/// The mirrored probe point `a + b - alpha`.
pub open spec fn gss_beta(a: int, b: int) -> int {
    a + b - gss_alpha(a, b)
}

/// The convergence width `tau * epsilon`.
pub open spec fn gss_tol(epsilon: int) -> int {
    div_tz((TAU as int) * epsilon, SCALE as int)
}

/// The objective decreases strictly toward `m` and increases strictly
/// after it, as far as its observed call results go.
pub open spec fn strictly_unimodal_on<E: Fn(i64) -> i64>(f: E, a: int, b: int, m: i64) -> bool {
    &&& a <= m <= b
    &&& (forall|x: i64, y: i64, vx: i64, vy: i64|
        a <= x < y <= m && #[trigger] f.ensures((x,), vx) && #[trigger] f.ensures((y,), vy)
            ==> vx > vy)
    &&& (forall|x: i64, y: i64, vx: i64, vy: i64|
        m <= x < y <= b && #[trigger] f.ensures((x,), vx) && #[trigger] f.ensures((y,), vy)
            ==> vx < vy)
}

/// Both probe points stay inside the interval, the next interval is
/// strictly shorter, and from width nine on the probes are strictly
/// ordered, `beta < alpha`.
proof fn lemma_gss_probes(a: int, b: int)
    requires
        a < b,
        b - a <= 4 * WORK_LIM,
    ensures
        a <= gss_alpha(a, b) < b,
        a < gss_beta(a, b) <= b,
        gss_alpha(a, b) - a == b - gss_beta(a, b),
        b - gss_beta(a, b) < b - a,
        b - a >= 2 ==> (a < gss_alpha(a, b) && gss_beta(a, b) < b),
        b - a >= 9 ==> gss_beta(a, b) < gss_alpha(a, b),
{
    let l = b - a;
    lemma_mul_abs(l, SCALE as int, 4 * WORK_LIM as int, SCALE as int);
    lemma_div_tz_abs(l * SCALE, TAU as int);
    let o = div_tz(l * SCALE, TAU as int);
    assert(l * SCALE >= 0) by (nonlinear_arith)
        requires
            l >= 0,
    {}
    assert(o >= 0);
    // o * TAU <= l * SCALE < l * TAU, so o < l
    assert(abs_i(o) * abs_i(TAU as int) <= abs_i(l * SCALE));
    assert(l * SCALE < l * (TAU as int)) by (nonlinear_arith)
        requires
            l >= 1,
    {}
    assert(o < l) by (nonlinear_arith)
        requires
            o * (TAU as int) <= l * SCALE,
            l * SCALE < l * (TAU as int),
            o >= 0,
            l >= 1,
    {}
    if l >= 2 {
        assert(l * SCALE >= (TAU as int) * 1) by (nonlinear_arith)
            requires
                l >= 2,
        {}
        crate::num::lemma_div_tz_ge(l * SCALE, TAU as int, 1);
    }
    if l >= 9 {
        // the division misses the true ratio by less than one, so
        // 2 * o * tau > 2 * l * scale - 2 * tau >= l * tau
        vstd::arithmetic::div_mod::lemma_fundamental_div_mod(l * SCALE, TAU as int);
        vstd::arithmetic::div_mod::lemma_mod_bound(l * SCALE, TAU as int);
        assert(o == (l * SCALE) / (TAU as int));
        assert(2 * o > l) by (nonlinear_arith)
            requires
                l * SCALE == (TAU as int) * ((l * SCALE) / (TAU as int)) + (l * SCALE) % (
                TAU as int),
                0 <= (l * SCALE) % (TAU as int) < (TAU as int),
                o == (l * SCALE) / (TAU as int),
                l >= 9,
        {}
    }
}

/// Golden section search for a unimodal objective on an interval.
#[derive(Clone, Copy, Debug, Default)]
pub struct GoldenSectionSearch {
    /// Max allowed iterations; 0 lets the search run until the
    /// interval has shrunk below the tolerance.
    pub max_iterations: usize,
    /// Accuracy tolerance: the search stops once the interval width is
    /// at most `tau * epsilon`.
    pub epsilon: i64,
    /// Left end of the search interval.
    pub a: i64,
    /// Right end of the search interval.
    pub b: i64,
}

impl GoldenSectionSearch {
    /// Accuracy tolerance; the default is 0.001.  A negative tolerance
    /// is meaningless and refused outright.
    pub fn with_epsilon(self, eps: i64) -> (r: Self)
        requires
            eps >= 0,
        ensures
            r == (GoldenSectionSearch { epsilon: eps, ..self }),
    {
        GoldenSectionSearch { epsilon: eps, ..self }
    }

    /// Max allowed iterations.  Zero means no cap: the search runs
    /// until the interval converges.
    pub fn with_max_iterations(self, niter: usize) -> (r: Self)
        ensures
            r == (GoldenSectionSearch { max_iterations: niter, ..self }),
    {
        GoldenSectionSearch { max_iterations: niter, ..self }
    }

    /// Shrink the interval around a single local minimum of `f`: each
    /// iteration evaluates `f` at the two golden probe points and
    /// keeps the side that must contain the minimum.  The result is a
    /// sub-interval of the input that brackets the minimizer of any
    /// strictly unimodal objective.  Without an iteration cap the
    /// final width is at most the golden fraction of `tau * epsilon`
    /// (about `epsilon` itself), except that an integer interval of
    /// width at most eight, whose probes can no longer sit strictly
    /// between its ends, is returned as it stands.
    pub fn find<E: Fn(i64) -> i64>(self, f: E) -> (r: Result<(i64, i64), Error>)
        requires
            forall|x: i64| #[trigger] f.requires((x,)),
        ensures
            r is Ok <==> (self.a < self.b && self.epsilon >= 0 && abs_i(self.a as int) <= WORK_LIM
                && abs_i(self.b as int) <= WORK_LIM && abs_i(self.epsilon as int) <= WORK_LIM),
            r matches Ok(cd) ==> (self.a <= cd.0 <= cd.1 <= self.b && (self.max_iterations == 0
                ==> (cd.1 - cd.0 <= div_tz(gss_tol(self.epsilon as int) * SCALE, TAU as int)
                    || cd.1 - cd.0 <= 8))),
            r matches Ok(cd) ==> (exists|m: i64, ym: i64|
                cd.0 <= m <= cd.1 && #[trigger] f.ensures((m,), ym)),
            r matches Ok(cd) ==> (forall|m: i64|
                #[trigger] strictly_unimodal_on(f, self.a as int, self.b as int, m) ==> cd.0 <= m
                    <= cd.1),
    {
        if !(self.a < self.b && self.epsilon >= 0) {
            return Err(Error::OutOfRange);
        }
        if self.a < -WORK_LIM || self.b > WORK_LIM || self.epsilon > WORK_LIM {
            return Err(Error::OutOfRange);
        }
        let a0: i64 = self.a;
        let b0: i64 = self.b;
        let mut a: i64 = self.a;
        let mut b: i64 = self.b;
        proof {
            lemma_mul_abs(TAU as int, self.epsilon as int, TAU as int, WORK_LIM as int);
            lemma_div_tz_abs((TAU as int) * self.epsilon, SCALE as int);
            assert((TAU as int) * self.epsilon >= 0) by (nonlinear_arith)
                requires
                    self.epsilon >= 0,
            {}
        }
        let tol: i64 = div_trunc((TAU as i128) * (self.epsilon as i128), SCALE as i128) as i64;
        proof {
            lemma_gss_probes(a as int, b as int);
            lemma_mul_abs((b - a) as int, SCALE as int, 4 * WORK_LIM as int, SCALE as int);
        }
        let mut alpha: i64 = a + div_trunc(
            ((b - a) as i128) * (SCALE as i128),
            TAU as i128,
        ) as i64;
        let mut beta: i64 = a + b - alpha;
        let mut falpha: i64 = f(alpha);
        let mut fbeta: i64 = f(beta);
        let mut k: usize = 0;
        loop
            invariant
                forall|x: i64| #[trigger] f.requires((x,)),
                a0 == self.a,
                b0 == self.b,
                a0 <= a < b <= b0,
                -WORK_LIM <= a0,
                b0 <= WORK_LIM,
                0 <= self.epsilon <= WORK_LIM,
                tol == gss_tol(self.epsilon as int),
                tol >= 0,
                alpha == gss_alpha(a as int, b as int),
                beta == gss_beta(a as int, b as int),
                f.ensures((alpha,), falpha),
                f.ensures((beta,), fbeta),
                forall|m: i64|
                    #[trigger] strictly_unimodal_on(f, a0 as int, b0 as int, m) ==> a <= m <= b,
                self.max_iterations == 0 ==> k == 0,
                self.max_iterations > 0 ==> k < self.max_iterations,
            decreases b - a,
        {
            proof {
                lemma_gss_probes(a as int, b as int);
            }
            // stop on convergence, and also once the interval is so
            // small that the two integer probes are no longer strictly
            // ordered inside it
            if b - a <= tol || beta >= alpha {
                if beta < alpha {
                    let mut ra: i64 = a;
                    let mut rb: i64 = b;
                    if fbeta <= falpha {
                        rb = alpha;
                    }
                    if fbeta >= falpha {
                        ra = beta;
                    }
                    proof {
                        assert forall|m: i64|
                            #[trigger] strictly_unimodal_on(f, a0 as int, b0 as int, m)
                                implies ra <= m <= rb by {
                            if fbeta <= falpha && m > alpha {
                                // both probes would sit on the falling side
                                assert(fbeta > falpha);
                            }
                            if fbeta >= falpha && m < beta {
                                // both probes would sit on the rising side
                                assert(fbeta < falpha);
                            }
                        }
                        if fbeta <= falpha {
                            assert(ra <= alpha <= rb && f.ensures((alpha,), falpha));
                        } else {
                            assert(ra <= beta <= rb && f.ensures((beta,), fbeta));
                        }
                        // every adjusted width is at most the golden
                        // fraction of the convergence width
                        let l = (b - a) as int;
                        let o = div_tz(l * SCALE, TAU as int);
                        assert(0 <= l * SCALE <= (tol as int) * SCALE) by (nonlinear_arith)
                            requires
                                1 <= l <= tol as int,
                        {}
                        lemma_div_tz_abs(l * SCALE, TAU as int);
                        lemma_div_tz_abs((tol as int) * SCALE, TAU as int);
                        vstd::arithmetic::div_mod::lemma_div_is_ordered(
                            l * SCALE,
                            (tol as int) * SCALE,
                            TAU as int,
                        );
                        assert(o <= div_tz((tol as int) * SCALE, TAU as int));
                    }
                    return Ok((ra, rb));
                }
                proof {
                    // beta >= alpha only happens below width nine
                    lemma_gss_probes(a as int, b as int);
                    assert(b - a <= 8);
                    assert(a <= alpha <= b && f.ensures((alpha,), falpha));
                }
                return Ok((a, b));
            }
            if fbeta > falpha {
                // the minimum lies right of beta
                proof {
                    assert forall|m: i64|
                        #[trigger] strictly_unimodal_on(f, a0 as int, b0 as int, m)
                            implies beta <= m && m <= b by {
                        if m < beta {
                            // both probes would sit on the rising side
                            assert(fbeta < falpha);
                        }
                    }
                }
                a = beta;
            } else {
                // the minimum lies left of alpha
                proof {
                    assert forall|m: i64|
                        #[trigger] strictly_unimodal_on(f, a0 as int, b0 as int, m)
                            implies a <= m && m <= alpha by {
                        if m > alpha {
                            assert(fbeta > falpha);
                        }
                    }
                }
                b = alpha;
            }
            proof {
                lemma_gss_probes(a as int, b as int);
                lemma_mul_abs((b - a) as int, SCALE as int, 4 * WORK_LIM as int, SCALE as int);
            }
            alpha = a + div_trunc(((b - a) as i128) * (SCALE as i128), TAU as i128) as i64;
            beta = a + b - alpha;
            falpha = f(alpha);
            fbeta = f(beta);
            if self.max_iterations > 0 {
                k = k + 1;
                if k >= self.max_iterations {
                    proof {
                        assert(a <= alpha <= b && f.ensures((alpha,), falpha));
                    }
                    return Ok((a, b));
                }
            }
        }
    }
}

/// Golden section search for a unimodal objective.  Given a function
/// with a single local minimum in `[a, b]`, `find` returns a
/// sub-interval containing that minimum.
pub fn golden_section_search(a: i64, b: i64) -> (r: GoldenSectionSearch)
    requires
        a < b,
    ensures
        r.a == a,
        r.b == b,
        r.epsilon == 1_000,
        r.max_iterations == 0,
{
    GoldenSectionSearch { a, b, epsilon: 1_000, max_iterations: 0 }
}

} // verus!
