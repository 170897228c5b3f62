//! The conjugate gradient displacement strategy: four beta schemes,
//! two restart policies, damping, and a maximum-step clip.

use vstd::prelude::*;
use crate::error::Error;
use crate::num::{abs_i, div_tz, div_trunc, lemma_div_tz_abs, lemma_div_tz_le, lemma_mul_abs,
    SCALE, WORK_LIM};
use crate::vector::{all_bounded, dot, dot_seq, lemma_all_bounded_widen, lemma_dot_seq_bound, V3,
    DOT_LIM, N_MAX};

verus! {

/// The step cap applied to every conjugate gradient direction
/// (0.002 units).
pub const MAXSTEP: i64 = 2_000;

/// Bound on a conjugate direction component before the step cap.
pub const CDIR_LIM: i64 = 0x4000_0000_0000_0000;

/// The scheme used for the beta value that mixes the previous
/// conjugate direction into the new one.
#[derive(Clone, Copy, Debug, PartialEq, Eq, Structural)]
pub enum BetaKind {
    /// Polak-Ribiere.
    PR,
    /// Fletcher-Reeves.
    FR,
    /// Hestenes-Stiefel.
    HS,
    /// Dai-Yuan.
    DY,
}

impl Default for BetaKind {
    fn default() -> (r: Self)
        ensures
            r == BetaKind::PR,
    {
        BetaKind::PR
    }
}

/// When to restart the conjugate gradient from steepest descent.
#[derive(Clone, Copy, Debug, PartialEq, Eq, Structural)]
pub enum RestartMethod {
    /// Restart when the current and previous gradients lose
    /// orthogonality: `|f|^2 / dot(f, f_prev) >= 0.2`.
    Powell,
    /// Clamp a negative beta to zero.
    Negative,
}

impl Default for RestartMethod {
    fn default() -> (r: Self)
        ensures
            r == RestartMethod::Powell,
    {
        RestartMethod::Powell
    }
}

/// History kept between cycles: the previous forces and the previous
/// conjugate direction.
#[derive(Clone, Debug)]
pub struct ConjugateGradientState {
    pub forces: Vec<V3>,
    pub conjct: Vec<V3>,
}

/// The conjugate gradient strategy.
#[derive(Clone, Debug)]
pub struct ConjugateGradient {
    /// The state of the previous step, absent until the first cycle.
    pub state: Option<ConjugateGradientState>,
    /// Scheme for the beta constant.
    pub beta: BetaKind,
    /// Damping factor for a smooth restart.
    pub beta_damping: i64,
    /// Restart policy.
    pub restart: RestartMethod,
}

impl Default for ConjugateGradient {
    fn default() -> (r: Self)
        ensures
            r.wf(),
            r.state is None,
            r.beta == BetaKind::PR,
            r.restart == RestartMethod::Powell,
            r.beta_damping == 800_000,
    {
        ConjugateGradient {
            state: None,
            beta: BetaKind::PR,
            restart: RestartMethod::Powell,
            beta_damping: 800_000,
        }
    }
}

/// The numerator of the raw beta ratio, from the five dot products
/// `ff = f.f`, `ffp = f.f_prev`, `fpfp = f_prev.f_prev`,
/// `cf = c_prev.f`, `cfp = c_prev.f_prev`.
pub open spec fn beta_num(kind: BetaKind, ff: int, ffp: int, fpfp: int, cf: int, cfp: int) -> int {
    match kind {
        BetaKind::PR => ff - ffp,
        BetaKind::FR => ff,
        BetaKind::HS => -(ff - ffp),
        BetaKind::DY => ff,
    }
}

/// The denominator of the raw beta ratio.
pub open spec fn beta_den(kind: BetaKind, ff: int, ffp: int, fpfp: int, cf: int, cfp: int) -> int {
    match kind {
        BetaKind::PR => fpfp,
        BetaKind::FR => fpfp,
        BetaKind::HS => cf - cfp,
        BetaKind::DY => cf - cfp,
    }
}

/// The raw fixed-point beta: the scheme's ratio scaled to raw units.
pub open spec fn raw_beta(kind: BetaKind, ff: int, ffp: int, fpfp: int, cf: int, cfp: int) -> int {
    div_tz(
        beta_num(kind, ff, ffp, fpfp, cf, cfp) * SCALE,
        beta_den(kind, ff, ffp, fpfp, cf, cfp),
    )
}

/// Powell's loss-of-orthogonality test `|f|^2 / dot(f, f_prev) >= 0.2`,
/// written exactly over the integers (the ratio is of two raw dot
/// products, so `5 * ff >= ffp` for a positive denominator).
pub open spec fn powell_restart(ff: int, ffp: int) -> bool {
    (ffp > 0 && 5 * ff >= ffp) || (ffp == 0 && ff > 0)
}

/// Beta after the restart policy.
pub open spec fn restarted_beta(restart: RestartMethod, beta: int, ff: int, ffp: int) -> int {
    match restart {
        RestartMethod::Negative => if beta < 0 {
            0
        } else {
            beta
        },
        RestartMethod::Powell => if powell_restart(ff, ffp) {
            0
        } else {
            beta
        },
    }
}

/// The beta actually applied to the previous direction: restarted,
/// then damped.
pub open spec fn applied_beta(
    damping: int,
    restart: RestartMethod,
    beta: int,
    ff: int,
    ffp: int,
) -> int {
    div_tz(damping * restarted_beta(restart, beta, ff, ffp), SCALE as int)
}

/// The largest single component in an array (0 for an empty one).
pub open spec fn max_comp(s: Seq<V3>) -> int
    decreases s.len(),
{
    if s.len() == 0 {
        0
    } else {
        let m = max_comp(s.drop_last());
        let v = s.last();
        let mv = if v.x >= v.y && v.x >= v.z {
            v.x as int
        } else if v.y >= v.z {
            v.y as int
        } else {
            v.z as int
        };
        if mv > m {
            mv
        } else {
            m
        }
    }
}

pub proof fn lemma_max_comp_nonneg(s: Seq<V3>)
    ensures
        max_comp(s) >= 0,
    decreases s.len(),
{
    if s.len() > 0 {
        lemma_max_comp_nonneg(s.drop_last());
    }
}

pub proof fn lemma_max_comp_take_step(s: Seq<V3>, i: int)
    requires
        0 <= i < s.len(),
    ensures
        max_comp(s.take(i + 1)) == ({
            let m = max_comp(s.take(i));
            let v = s[i];
            let mv = if v.x >= v.y && v.x >= v.z {
                v.x as int
            } else if v.y >= v.z {
                v.y as int
            } else {
                v.z as int
            };
            if mv > m {
                mv
            } else {
                m
            }
        }),
{
    assert(s.take(i + 1).drop_last() =~= s.take(i));
    assert(s.take(i + 1).last() == s[i]);
}

/// How the step cap rewrites a direction: untouched when its largest
/// component is within `MAXSTEP`, else every component is scaled by
/// `MAXSTEP / max`.
pub open spec fn max_step_rel(pre: Seq<V3>, d: Seq<V3>) -> bool {
    let dm = max_comp(pre);
    if dm > MAXSTEP {
        &&& d.len() == pre.len()
        &&& forall|i: int|
            0 <= i < pre.len() ==> ((#[trigger] d[i]).x == div_tz(pre[i].x * MAXSTEP, dm) && d[i].y
                == div_tz(pre[i].y * MAXSTEP, dm) && d[i].z == div_tz(pre[i].z * MAXSTEP, dm))
    } else {
        d == pre
    }
}

/// Scale a direction down uniformly if its largest component exceeds
/// the step cap.
pub fn scale_by_max_step(displacements: &Vec<V3>) -> (r: Vec<V3>)
    requires
        all_bounded(displacements@, CDIR_LIM as int),
    ensures
        max_step_rel(displacements@, r@),
        r@.len() == displacements@.len(),
        all_bounded(r@, CDIR_LIM as int),
{
    let n: usize = displacements.len();
    let mut dm: i64 = 0;
    let mut i: usize = 0;
    while i < n
        invariant
            0 <= i <= n,
            n == displacements@.len(),
            all_bounded(displacements@, CDIR_LIM as int),
            dm == max_comp(displacements@.take(i as int)),
            0 <= dm <= CDIR_LIM,
        decreases n - i,
    {
        let v = displacements[i];
        proof {
            assert(crate::vector::v3_bounded(displacements@[i as int], CDIR_LIM as int));
            lemma_max_comp_take_step(displacements@, i as int);
        }
        let mv: i64 = if v.x >= v.y && v.x >= v.z {
            v.x
        } else if v.y >= v.z {
            v.y
        } else {
            v.z
        };
        if mv > dm {
            dm = mv;
        }
        i = i + 1;
    }
    proof {
        assert(displacements@.take(n as int) =~= displacements@);
    }
    if dm > MAXSTEP {
        let mut r: Vec<V3> = Vec::new();
        let mut k: usize = 0;
        while k < n
            invariant
                0 <= k <= n,
                n == displacements@.len(),
                all_bounded(displacements@, CDIR_LIM as int),
                MAXSTEP < dm <= CDIR_LIM,
                r@.len() == k,
                forall|j: int|
                    0 <= j < k ==> ((#[trigger] r@[j]).x == div_tz(
                        displacements@[j].x * MAXSTEP,
                        dm as int,
                    ) && r@[j].y == div_tz(displacements@[j].y * MAXSTEP, dm as int) && r@[j].z
                        == div_tz(displacements@[j].z * MAXSTEP, dm as int)),
                forall|j: int|
                    0 <= j < k ==> crate::vector::v3_bounded(#[trigger] r@[j], CDIR_LIM as int),
            decreases n - k,
        {
            let v = displacements[k];
            proof {
                assert(crate::vector::v3_bounded(displacements@[k as int], CDIR_LIM as int));
                lemma_mul_abs(v.x as int, MAXSTEP as int, CDIR_LIM as int, MAXSTEP as int);
                lemma_mul_abs(v.y as int, MAXSTEP as int, CDIR_LIM as int, MAXSTEP as int);
                lemma_mul_abs(v.z as int, MAXSTEP as int, CDIR_LIM as int, MAXSTEP as int);
                assert(abs_i(v.x * MAXSTEP) <= (dm as int) * (CDIR_LIM as int))
                    by (nonlinear_arith)
                    requires
                        abs_i(v.x * MAXSTEP) <= (CDIR_LIM as int) * (MAXSTEP as int),
                        MAXSTEP < dm,
                        0 <= CDIR_LIM,
                        0 < MAXSTEP,
                {}
                assert(abs_i(v.y * MAXSTEP) <= (dm as int) * (CDIR_LIM as int))
                    by (nonlinear_arith)
                    requires
                        abs_i(v.y * MAXSTEP) <= (CDIR_LIM as int) * (MAXSTEP as int),
                        MAXSTEP < dm,
                        0 <= CDIR_LIM,
                        0 < MAXSTEP,
                {}
                assert(abs_i(v.z * MAXSTEP) <= (dm as int) * (CDIR_LIM as int))
                    by (nonlinear_arith)
                    requires
                        abs_i(v.z * MAXSTEP) <= (CDIR_LIM as int) * (MAXSTEP as int),
                        MAXSTEP < dm,
                        0 <= CDIR_LIM,
                        0 < MAXSTEP,
                {}
                lemma_div_tz_le(v.x * MAXSTEP, dm as int, CDIR_LIM as int);
                lemma_div_tz_le(v.y * MAXSTEP, dm as int, CDIR_LIM as int);
                lemma_div_tz_le(v.z * MAXSTEP, dm as int, CDIR_LIM as int);
            }
            let gx: i64 = div_trunc((v.x as i128) * (MAXSTEP as i128), dm as i128) as i64;
            let gy: i64 = div_trunc((v.y as i128) * (MAXSTEP as i128), dm as i128) as i64;
            let gz: i64 = div_trunc((v.z as i128) * (MAXSTEP as i128), dm as i128) as i64;
            r.push(V3 { x: gx, y: gy, z: gz });
            k = k + 1;
        }
        r
    } else {
        let mut r: Vec<V3> = Vec::new();
        let mut k: usize = 0;
        while k < n
            invariant
                0 <= k <= n,
                n == displacements@.len(),
                r@ =~= displacements@.take(k as int),
            decreases n - k,
        {
            r.push(displacements[k]);
            k = k + 1;
        }
        proof {
            assert(displacements@.take(n as int) =~= displacements@);
        }
        r
    }
}

impl ConjugateGradient {
    /// The damping factor is a fraction of one.
    pub open spec fn wf(self) -> bool {
        0 <= self.beta_damping <= SCALE
    }

    /// The previous cycle's forces; on the first cycle the current
    /// forces stand in for them.
    pub open spec fn prev_forces(self, f: Seq<V3>) -> Seq<V3> {
        match self.state {
            Some(s) => s.forces@,
            None => f,
        }
    }

    /// The previous conjugate direction; on the first cycle the current
    /// forces stand in for it.
    pub open spec fn prev_conjct(self, f: Seq<V3>) -> Seq<V3> {
        match self.state {
            Some(s) => s.conjct@,
            None => f,
        }
    }

    /// The scheme's denominator for the given forces and history.
    pub open spec fn cg_beta_den(self, f: Seq<V3>) -> int {
        let fp = self.prev_forces(f);
        let cp = self.prev_conjct(f);
        beta_den(
            self.beta,
            dot_seq(f, f),
            dot_seq(f, fp),
            dot_seq(fp, fp),
            dot_seq(cp, f),
            dot_seq(cp, fp),
        )
    }

    /// The scheme's raw beta for the given forces and history.
    pub open spec fn cg_raw_beta(self, f: Seq<V3>) -> int {
        let fp = self.prev_forces(f);
        let cp = self.prev_conjct(f);
        raw_beta(
            self.beta,
            dot_seq(f, f),
            dot_seq(f, fp),
            dot_seq(fp, fp),
            dot_seq(cp, f),
            dot_seq(cp, fp),
        )
    }

    /// The beta actually applied: restarted by the policy, then damped.
    pub open spec fn cg_applied_beta(self, f: Seq<V3>) -> int {
        applied_beta(
            self.beta_damping as int,
            self.restart,
            self.cg_raw_beta(f),
            dot_seq(f, f),
            dot_seq(f, self.prev_forces(f)),
        )
    }

    /// Exactly when a cycle succeeds: working-range inputs and history,
    /// a non-vanishing denominator, and a representable beta.
    pub open spec fn accepts(self, f: Seq<V3>) -> bool {
        &&& f.len() <= N_MAX
        &&& all_bounded(f, WORK_LIM as int)
        &&& (self.state matches Some(s) ==> (s.forces@.len() == f.len() && s.conjct@.len()
            == f.len() && all_bounded(s.forces@, WORK_LIM as int) && all_bounded(
            s.conjct@,
            WORK_LIM as int,
        )))
        &&& self.cg_beta_den(f) != 0
        &&& abs_i(self.cg_raw_beta(f)) <= WORK_LIM
    }

    /// Everything one successful conjugate gradient cycle guarantees.
    pub open spec fn cycle_post(
        st0: ConjugateGradient,
        st1: ConjugateGradient,
        f: Seq<V3>,
        d: Seq<V3>,
    ) -> bool {
        &&& (exists|pre: Seq<V3>|
            #[trigger] cg_dir_matches(pre, f, st0.prev_conjct(f), st0.cg_applied_beta(f))
                && max_step_rel(pre, d))
        &&& (st1.state matches Some(s1) && s1.forces@ == f && s1.conjct@ == d)
        &&& st1.beta == st0.beta
        &&& st1.restart == st0.restart
        &&& st1.beta_damping == st0.beta_damping
        &&& d.len() == f.len()
    }

    /// One conjugate gradient cycle: the new direction is the forces
    /// plus the damped, possibly restarted beta times the previous
    /// direction, clipped by the step cap.
    pub fn get_displacement_vectors(&mut self, forces: &Vec<V3>) -> (r: Result<Vec<V3>, Error>)
        requires
            old(self).wf(),
        ensures
            final(self).wf(),
            r is Ok <==> old(self).accepts(forces@),
            r is Err ==> *final(self) == *old(self),
            r == Err::<Vec<V3>, Error>(Error::DegenerateBeta) <==> (forces@.len() <= N_MAX
                && all_bounded(forces@, WORK_LIM as int) && (old(self).state matches Some(s) ==> (
            s.forces@.len() == forces@.len() && s.conjct@.len() == forces@.len() && all_bounded(
                s.forces@,
                WORK_LIM as int,
            ) && all_bounded(s.conjct@, WORK_LIM as int))) && old(self).cg_beta_den(forces@) == 0),
            r matches Ok(d) ==> ConjugateGradient::cycle_post(*old(self), *final(self), forces@, d@),
    {
        let ghost st_begin: ConjugateGradient = *self;
        let n: usize = forces.len();
        if n > N_MAX {
            return Err(Error::OutOfRange);
        }
        if !crate::vector::check_bounded(forces, WORK_LIM) {
            return Err(Error::OutOfRange);
        }
        match &self.state {
            Some(st) => {
                if st.forces.len() != n || st.conjct.len() != n {
                    return Err(Error::SizeMismatch);
                }
                if !crate::vector::check_bounded(&st.forces, WORK_LIM) {
                    return Err(Error::OutOfRange);
                }
                if !crate::vector::check_bounded(&st.conjct, WORK_LIM) {
                    return Err(Error::OutOfRange);
                }
            },
            None => {},
        }
        let ghost fp: Seq<V3> = st_begin.prev_forces(forces@);
        let ghost cp: Seq<V3> = st_begin.prev_conjct(forces@);
        proof {
            lemma_all_bounded_widen(forces@, WORK_LIM as int, DOT_LIM as int);
            lemma_all_bounded_widen(fp, WORK_LIM as int, DOT_LIM as int);
            lemma_all_bounded_widen(cp, WORK_LIM as int, DOT_LIM as int);
            lemma_dot_seq_bound(forces@, forces@, WORK_LIM as int, WORK_LIM as int);
            lemma_dot_seq_bound(forces@, fp, WORK_LIM as int, WORK_LIM as int);
            lemma_dot_seq_bound(fp, fp, WORK_LIM as int, WORK_LIM as int);
            lemma_dot_seq_bound(cp, forces@, WORK_LIM as int, WORK_LIM as int);
            lemma_dot_seq_bound(cp, fp, WORK_LIM as int, WORK_LIM as int);
        }
        let (ff, ffp, fpfp, cf, cfp): (i128, i128, i128, i128, i128) = match &self.state {
            Some(st) => (
                dot(forces, forces),
                dot(forces, &st.forces),
                dot(&st.forces, &st.forces),
                dot(&st.conjct, forces),
                dot(&st.conjct, &st.forces),
            ),
            None => {
                let ff = dot(forces, forces);
                (ff, ff, ff, ff, ff)
            },
        };
        let (num, den): (i128, i128) = match self.beta {
            BetaKind::PR => (ff - ffp, fpfp),
            BetaKind::FR => (ff, fpfp),
            BetaKind::HS => (-(ff - ffp), cf - cfp),
            BetaKind::DY => (ff, cf - cfp),
        };
        if den == 0 {
            return Err(Error::DegenerateBeta);
        }
        let beta: i128 = div_trunc(num * (SCALE as i128), den);
        proof {
            lemma_div_tz_abs(num * SCALE, den as int);
        }
        if beta > (WORK_LIM as i128) || beta < -(WORK_LIM as i128) {
            return Err(Error::OutOfRange);
        }
        let rbeta: i128 = match self.restart {
            RestartMethod::Negative => if beta < 0 {
                0
            } else {
                beta
            },
            RestartMethod::Powell => {
                if (ffp > 0 && 5 * ff >= ffp) || (ffp == 0 && ff > 0) {
                    0
                } else {
                    beta
                }
            },
        };
        proof {
            lemma_mul_abs(self.beta_damping as int, rbeta as int, SCALE as int, WORK_LIM as int);
            lemma_div_tz_le(self.beta_damping * rbeta, SCALE as int, WORK_LIM as int);
        }
        let damped: i64 = div_trunc((self.beta_damping as i128) * rbeta, SCALE as i128) as i64;
        // the new steepest descent direction
        let cref: &Vec<V3> = match &self.state {
            Some(st) => &st.conjct,
            None => forces,
        };
        let mut pre: Vec<V3> = Vec::new();
        let mut i: usize = 0;
        while i < n
            invariant
                0 <= i <= n,
                n == forces@.len(),
                cref@ == cp,
                cp.len() == n,
                all_bounded(forces@, WORK_LIM as int),
                all_bounded(cp, WORK_LIM as int),
                abs_i(damped as int) <= WORK_LIM,
                pre@.len() == i,
                forall|j: int|
                    0 <= j < i ==> ((#[trigger] pre@[j]).x == forces@[j].x + div_tz(
                        (damped as int) * cp[j].x,
                        SCALE as int,
                    ) && pre@[j].y == forces@[j].y + div_tz((damped as int) * cp[j].y, SCALE as int)
                        && pre@[j].z == forces@[j].z + div_tz(
                        (damped as int) * cp[j].z,
                        SCALE as int,
                    )),
                forall|j: int|
                    0 <= j < i ==> crate::vector::v3_bounded(#[trigger] pre@[j], CDIR_LIM as int),
            decreases n - i,
        {
            let fv = forces[i];
            let cv = cref[i];
            proof {
                assert(crate::vector::v3_bounded(forces@[i as int], WORK_LIM as int));
                assert(crate::vector::v3_bounded(cp[i as int], WORK_LIM as int));
                lemma_mul_abs(damped as int, cv.x as int, WORK_LIM as int, WORK_LIM as int);
                lemma_mul_abs(damped as int, cv.y as int, WORK_LIM as int, WORK_LIM as int);
                lemma_mul_abs(damped as int, cv.z as int, WORK_LIM as int, WORK_LIM as int);
                lemma_div_tz_le(
                    (damped as int) * (cv.x as int),
                    SCALE as int,
                    0x2000_0000_0000_0000,
                );
                lemma_div_tz_le(
                    (damped as int) * (cv.y as int),
                    SCALE as int,
                    0x2000_0000_0000_0000,
                );
                lemma_div_tz_le(
                    (damped as int) * (cv.z as int),
                    SCALE as int,
                    0x2000_0000_0000_0000,
                );
            }
            let px: i128 = (fv.x as i128) + div_trunc((damped as i128) * (cv.x as i128), SCALE
                as i128);
            let py: i128 = (fv.y as i128) + div_trunc((damped as i128) * (cv.y as i128), SCALE
                as i128);
            let pz: i128 = (fv.z as i128) + div_trunc((damped as i128) * (cv.z as i128), SCALE
                as i128);
            pre.push(V3 { x: px as i64, y: py as i64, z: pz as i64 });
            i = i + 1;
        }
        let d = scale_by_max_step(&pre);
        self.state = Some(
            ConjugateGradientState {
                forces: crate::vector::copy_vec(forces),
                conjct: crate::vector::copy_vec(&d),
            },
        );
        proof {
            assert(st_begin.cg_raw_beta(forces@) == beta);
            assert(st_begin.cg_applied_beta(forces@) == damped);
            assert(cg_dir_matches(pre@, forces@, cp, st_begin.cg_applied_beta(forces@)));
            assert(max_step_rel(pre@, d@));
        }
        Ok(d)
    }
}

/// `pre` is `f` plus `beta` times the previous direction `c`,
/// componentwise in raw units.
pub open spec fn cg_dir_matches(pre: Seq<V3>, f: Seq<V3>, c: Seq<V3>, beta: int) -> bool {
    &&& pre.len() == f.len()
    &&& c.len() == f.len()
    &&& forall|i: int|
        0 <= i < f.len() ==> ((#[trigger] pre[i]).x == f[i].x + div_tz(beta * c[i].x, SCALE as int)
            && pre[i].y == f[i].y + div_tz(beta * c[i].y, SCALE as int) && pre[i].z == f[i].z
            + div_tz(beta * c[i].z, SCALE as int))
}

impl crate::optimization::Optimizer for ConjugateGradient {
    open spec fn inv(&self) -> bool {
        self.wf()
    }

    fn displacements(&mut self, mp: &crate::models::ModelProperties) -> (r: Result<Vec<V3>, Error>)
        ensures
            mp.forces is None ==> r == Err::<Vec<V3>, Error>(Error::MissingForces { image: 0 }),
            r matches Ok(d) ==> (mp.forces matches Some(f) && old(self).accepts(f@)
                && ConjugateGradient::cycle_post(*old(self), *final(self), f@, d@)),
            (mp.forces matches Some(f) && !old(self).accepts(f@)) ==> (r is Err && *final(self)
                == *old(self)),
    {
        match &mp.forces {
            Some(f) => {
                match self.get_displacement_vectors(f) {
                    Ok(d) => {
                        if !crate::vector::check_bounded(&d, WORK_LIM) {
                            Err(Error::OutOfRange)
                        } else {
                            Ok(d)
                        }
                    },
                    Err(e) => Err(e),
                }
            },
            None => Err(Error::MissingForces { image: 0 }),
        }
    }
}

/// Law: under the Powell restart policy, whenever the loss-of-
/// orthogonality test `|f|^2 / dot(f, f_prev) >= 0.2` fires, the beta
/// applied that cycle is exactly zero, and the direction handed to the
/// step cap is exactly the forces.
pub proof fn lemma_powell_restart_zeroes_beta(
    st0: ConjugateGradient,
    st1: ConjugateGradient,
    f: Seq<V3>,
    d: Seq<V3>,
)
    requires
        st0.restart == RestartMethod::Powell,
        ConjugateGradient::cycle_post(st0, st1, f, d),
        powell_restart(dot_seq(f, f), dot_seq(f, st0.prev_forces(f))),
    ensures
        st0.cg_applied_beta(f) == 0,
        max_step_rel(f, d),
{
    assert(restarted_beta(
        RestartMethod::Powell,
        st0.cg_raw_beta(f),
        dot_seq(f, f),
        dot_seq(f, st0.prev_forces(f)),
    ) == 0);
    assert((st0.beta_damping as int) * 0 == 0) by (nonlinear_arith) {}
    assert(st0.cg_applied_beta(f) == 0);
    let cp = st0.prev_conjct(f);
    let pre = choose|pre: Seq<V3>|
        #[trigger] cg_dir_matches(pre, f, cp, st0.cg_applied_beta(f)) && max_step_rel(pre, d);
    assert forall|i: int| 0 <= i < f.len() implies #[trigger] pre[i] == f[i] by {
        assert(0 * cp[i].x == 0 && 0 * cp[i].y == 0 && 0 * cp[i].z == 0) by (nonlinear_arith) {}
        assert(pre[i].x == f[i].x && pre[i].y == f[i].y && pre[i].z == f[i].z);
    }
    assert(pre =~= f);
}

} // verus!
