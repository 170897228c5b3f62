//! The Fast Inertial Relaxation Engine (FIRE): damped Newtonian
//! dynamics with an adaptive time step.
//!
//! Each cycle computes the power (force dot velocity), blends the
//! velocity toward the force direction, grows the time step after a
//! latency of downhill steps or resets the state after an uphill one,
//! integrates one semi-implicit Euler step, and clips the proposed
//! displacement to the configured cap.  Every stage is specified
//! exactly over the crate's fixed-point arithmetic.

use vstd::prelude::*;
use crate::error::Error;
use crate::num::{abs_i, div_tz, div_trunc, isqrt, isqrt_spec, lemma_div_tz_abs, lemma_div_tz_le,
    lemma_isqrt_bounds, lemma_isqrt_ge, lemma_isqrt_le, lemma_mul_abs, lemma_sq_le_isqrt, SCALE,
    WORK_LIM};
use crate::vector::{all_bounded, dot, dot_seq, lemma_all_bounded_widen, lemma_component_le_norm,
    lemma_dot_seq_bound, lemma_dot_seq_take_step, lemma_norm_sq_prefix_le, lemma_norm_sq_seq_elem,
    lemma_norm_sq_seq_nonneg, norm_raw, norm_seq, norm_sq_seq, v3_norm_sq, V3, N_MAX};

verus! {

/// The largest raw time step the engine accepts (16 time units).
pub const DT_LIM: i64 = 16_000_000;

/// Bound on the global norm of a working-range array.
pub const NORM_LIM: i64 = 0x8_0000_0000_0000;

/// Bound on a blended velocity component.
pub const BLEND_LIM: i64 = 0x10_0000_0000_0000;

/// Bound on a velocity component after the force kick.
pub const VSTEP_LIM: i64 = 0x20_0000_0000_0000;

/// Bound on an unclipped displacement component.
pub const DISP_LIM: i64 = 0x400_0000_0000_0000;

/// One component of the velocity blend
/// `v' = (1 - alpha) * v + alpha * |v| * f / |f|`, using the global
/// norms of the whole velocity and force arrays.  A vanishing force
/// norm contributes nothing.
pub open spec fn blend_c(vc: int, fc: int, alpha: int, vnorm: int, fnorm: int) -> int {
    div_tz((SCALE - alpha) * vc, SCALE as int) + if fnorm == 0 {
        0
    } else {
        div_tz(alpha * div_tz(fc * vnorm, fnorm), SCALE as int)
    }
}

/// One component of the force kick `v' = v + f * dt`.
pub open spec fn kick_c(vc: int, fc: int, dt: int) -> int {
    vc + div_tz(fc * dt, SCALE as int)
}

/// One component of the Verlet-style displacement
/// `d = v * dt + f * dt * dt / 2`.
pub open spec fn drift_c(vc: int, fc: int, dt: int) -> int {
    div_tz(vc * dt, SCALE as int) + div_tz(fc * dt * dt, 2 * (SCALE as int) * (SCALE as int))
}

/// How `d1` arises from `d0` by the displacement cap: untouched when
/// the global displacement norm is within `maxdisp`, otherwise every
/// component is scaled uniformly by `maxdisp / norm`.
pub open spec fn clip_rel(d0: Seq<V3>, d1: Seq<V3>, maxdisp: int) -> bool {
    let nmax = norm_seq(d0);
    if nmax <= maxdisp {
        d1 == d0
    } else {
        let factor = div_tz(maxdisp * SCALE, nmax);
        &&& d1.len() == d0.len()
        &&& forall|i: int|
            0 <= i < d0.len() ==> ((#[trigger] d1[i]).x == div_tz(d0[i].x * factor, SCALE as int)
                && d1[i].y == div_tz(d0[i].y * factor, SCALE as int) && d1[i].z == div_tz(
                d0[i].z * factor,
                SCALE as int,
            ))
    }
}

/// The adaptive time step after one cycle: grown (and capped at
/// `dt_max`) after enough downhill steps, shrunk after an uphill one.
pub open spec fn dt_after(st: FIRE, power: int) -> int {
    if power >= 0 {
        if st.nsteps > st.nsteps_min {
            let d = div_tz(st.dt * st.f_inc, SCALE as int);
            if d < st.dt_max {
                d
            } else {
                st.dt_max as int
            }
        } else {
            st.dt as int
        }
    } else {
        div_tz(st.dt * st.f_dec, SCALE as int)
    }
}

/// The mixing parameter after one cycle: decayed after enough downhill
/// steps, reset to `alpha_start` after an uphill one.
pub open spec fn alpha_after(st: FIRE, power: int) -> int {
    if power >= 0 {
        if st.nsteps > st.nsteps_min {
            div_tz(st.alpha * st.f_alpha, SCALE as int)
        } else {
            st.alpha as int
        }
    } else {
        st.alpha_start as int
    }
}

/// The downhill counter after one cycle: incremented on a downhill
/// step (stopping only at the type's limit), reset on an uphill one.
pub open spec fn nsteps_after(st: FIRE, power: int) -> int {
    if power >= 0 {
        if st.nsteps < usize::MAX {
            st.nsteps + 1
        } else {
            st.nsteps as int
        }
    } else {
        0
    }
}

/// The velocity a component carries into the integration step: the
/// blend on a downhill cycle, exactly zero on an uphill one.
pub open spec fn vel_mid_c(
    vc: int,
    fc: int,
    alpha: int,
    vnorm: int,
    fnorm: int,
    power: int,
) -> int {
    if power >= 0 {
        blend_c(vc, fc, alpha, vnorm, fnorm)
    } else {
        0
    }
}

/// The velocity stored after a full cycle: the mid velocity kicked by
/// the forces over the new time step.
pub open spec fn vel_after_c(vc: int, fc: int, st: FIRE, power: int, vnorm: int, fnorm: int) -> int {
    kick_c(vel_mid_c(vc, fc, st.alpha as int, vnorm, fnorm, power), fc, dt_after(st, power))
}

/// `d0` is the unclipped Verlet displacement of velocities `v` under
/// forces `f` and time step `dt`.
pub open spec fn drift_matches(d0: Seq<V3>, v: Seq<V3>, f: Seq<V3>, dt: int) -> bool {
    &&& d0.len() == f.len()
    &&& v.len() == f.len()
    &&& forall|i: int|
        0 <= i < f.len() ==> ((#[trigger] d0[i]).x == drift_c(v[i].x as int, f[i].x as int, dt)
            && d0[i].y == drift_c(v[i].y as int, f[i].y as int, dt) && d0[i].z == drift_c(
            v[i].z as int,
            f[i].z as int,
            dt,
        ))
}

/// Fast Inertial Relaxation Engine state: tuning constants and the
/// adaptive scalars and velocities that persist across cycles.
#[derive(Clone, Debug)]
pub struct FIRE {
    /// The maximum time step allowed.
    pub dt_max: i64,
    /// Factor used to decrease the alpha parameter after a downhill step.
    pub f_alpha: i64,
    /// Initial alpha parameter.
    pub alpha_start: i64,
    /// The maximum global displacement allowed in one cycle.
    pub maxdisp: i64,
    /// Factor used to increase the time step when going downhill.
    pub f_inc: i64,
    /// Factor used to decrease the time step when going uphill.
    pub f_dec: i64,
    /// Downhill steps to wait before the time step may grow.
    pub nsteps_min: usize,
    /// Adaptive time step.
    pub dt: i64,
    /// Adaptive velocity-mixing parameter.
    pub alpha: i64,
    /// Current velocities, absent until the first cycle.
    pub velocities: Option<Vec<V3>>,
    /// Consecutive downhill steps.
    pub nsteps: usize,
}

impl FIRE {
    /// The state invariant: every tuning constant sits in the range
    /// the fixed-point pipeline is proven overflow-free for.
    pub open spec fn wf(self) -> bool {
        &&& 0 <= self.dt_max <= DT_LIM
        &&& 0 <= self.dt <= self.dt_max
        &&& 0 <= self.alpha <= SCALE
        &&& 0 <= self.alpha_start <= SCALE
        &&& 0 <= self.f_alpha <= SCALE
        &&& 0 <= self.f_dec <= SCALE
        &&& 0 <= self.f_inc <= DT_LIM
        &&& 0 <= self.maxdisp <= WORK_LIM
    }

    /// The velocities the next cycle will start from: the stored array,
    /// or all zeros before the first cycle.
    pub open spec fn stored_velocities(self, n: int) -> Seq<V3> {
        match self.velocities {
            Some(v) => v@,
            None => Seq::new(n as nat, |i: int| V3::spec_zero()),
        }
    }

    /// Propagate the system for one simulation step: power, blend,
    /// adapt, kick, drift, clip.
    fn propagate(&mut self, forces: &Vec<V3>, velocities: &mut Vec<V3>) -> (r: Vec<V3>)
        requires
            old(self).wf(),
            old(velocities)@.len() == forces@.len(),
            forces@.len() <= N_MAX,
            all_bounded(forces@, WORK_LIM as int),
            all_bounded(old(velocities)@, WORK_LIM as int),
        ensures
            final(self).wf(),
            final(self).dt_max == old(self).dt_max,
            final(self).f_alpha == old(self).f_alpha,
            final(self).alpha_start == old(self).alpha_start,
            final(self).maxdisp == old(self).maxdisp,
            final(self).f_inc == old(self).f_inc,
            final(self).f_dec == old(self).f_dec,
            final(self).nsteps_min == old(self).nsteps_min,
            final(self).velocities == old(self).velocities,
            final(self).dt == dt_after(*old(self), dot_seq(forces@, old(velocities)@)),
            final(self).alpha == alpha_after(*old(self), dot_seq(forces@, old(velocities)@)),
            final(self).nsteps == nsteps_after(*old(self), dot_seq(forces@, old(velocities)@)),
            final(velocities)@.len() == forces@.len(),
            all_bounded(final(velocities)@, VSTEP_LIM as int),
            forall|i: int|
                0 <= i < forces@.len() ==> ((#[trigger] final(velocities)@[i]).x == vel_after_c(
                    old(velocities)@[i].x as int,
                    forces@[i].x as int,
                    *old(self),
                    dot_seq(forces@, old(velocities)@),
                    norm_seq(old(velocities)@),
                    norm_seq(forces@),
                ) && final(velocities)@[i].y == vel_after_c(
                    old(velocities)@[i].y as int,
                    forces@[i].y as int,
                    *old(self),
                    dot_seq(forces@, old(velocities)@),
                    norm_seq(old(velocities)@),
                    norm_seq(forces@),
                ) && final(velocities)@[i].z == vel_after_c(
                    old(velocities)@[i].z as int,
                    forces@[i].z as int,
                    *old(self),
                    dot_seq(forces@, old(velocities)@),
                    norm_seq(old(velocities)@),
                    norm_seq(forces@),
                )),
            r@.len() == forces@.len(),
            all_bounded(r@, old(self).maxdisp as int),
            norm_sq_seq(r@) < (old(self).maxdisp + 1) * (old(self).maxdisp + 1),
            exists|d0: Seq<V3>|
                #[trigger] drift_matches(
                    d0,
                    final(velocities)@,
                    forces@,
                    dt_after(*old(self), dot_seq(forces@, old(velocities)@)),
                ) && clip_rel(d0, r@, old(self).maxdisp as int),
    {
        let ghost st0: FIRE = *self;
        let ghost power: int = dot_seq(forces@, old(velocities)@);
        proof {
            crate::vector::lemma_all_bounded_widen(
                forces@,
                WORK_LIM as int,
                crate::vector::DOT_LIM as int,
            );
            crate::vector::lemma_all_bounded_widen(
                old(velocities)@,
                WORK_LIM as int,
                crate::vector::DOT_LIM as int,
            );
        }
        // F1: the power P = F . V
        let power_i: i128 = dot(forces, velocities);
        // F2: blend the velocities toward the force direction
        update_velocities(velocities, forces, self.alpha);
        // F3 and F4: downhill or uphill
        if power_i >= 0 {
            // F3: downhill; grow the time step once past the latency
            if self.nsteps > self.nsteps_min {
                proof {
                    lemma_mul_abs(self.dt as int, self.f_inc as int, DT_LIM as int, DT_LIM as int);
                    lemma_div_tz_le(self.dt * self.f_inc, SCALE as int, 16 * (DT_LIM as int));
                    lemma_div_tz_abs(self.dt * self.f_inc, SCALE as int);
                    lemma_mul_abs(self.alpha as int, self.f_alpha as int, SCALE as int, SCALE as int);
                    lemma_div_tz_le(self.alpha * self.f_alpha, SCALE as int, SCALE as int);
                    lemma_div_tz_abs(self.alpha * self.f_alpha, SCALE as int);
                }
                let cand: i64 = div_trunc(
                    (self.dt as i128) * (self.f_inc as i128),
                    SCALE as i128,
                ) as i64;
                self.dt = if cand < self.dt_max {
                    cand
                } else {
                    self.dt_max
                };
                self.alpha = div_trunc(
                    (self.alpha as i128) * (self.f_alpha as i128),
                    SCALE as i128,
                ) as i64;
            }
            if self.nsteps < usize::MAX {
                self.nsteps = self.nsteps + 1;
            }
        } else {
            // F4: uphill; shrink the time step and restart the dynamics
            proof {
                lemma_mul_abs(self.dt as int, self.f_dec as int, DT_LIM as int, SCALE as int);
                lemma_mul_abs(self.dt as int, self.f_dec as int, self.dt_max as int, SCALE as int);
                assert((self.dt_max as int) * (SCALE as int) == (SCALE as int) * (self.dt_max
                    as int)) by (nonlinear_arith) {}
                lemma_div_tz_le(self.dt * self.f_dec, SCALE as int, self.dt_max as int);
                lemma_div_tz_le(self.dt * self.f_dec, SCALE as int, DT_LIM as int);
                lemma_div_tz_abs(self.dt * self.f_dec, SCALE as int);
            }
            self.dt = div_trunc((self.dt as i128) * (self.f_dec as i128), SCALE as i128) as i64;
            self.alpha = self.alpha_start;
            self.nsteps = 0;
            let n: usize = velocities.len();
            let mut i: usize = 0;
            while i < n
                invariant
                    0 <= i <= n,
                    velocities@.len() == n,
                    forall|j: int| 0 <= j < i ==> #[trigger] velocities@[j] == V3::spec_zero(),
                decreases n - i,
            {
                velocities.set(i, V3::zero());
                i = i + 1;
            }
            proof {
                assert forall|j: int| 0 <= j < velocities@.len() implies #[trigger] crate::vector::v3_bounded(
                    velocities@[j],
                    BLEND_LIM as int,
                ) by {
                    assert(velocities@[j] == V3::spec_zero());
                }
            }
        }
        // F5: integrate one step and clip the displacement
        kick_velocities(velocities, forces, self.dt);
        let mut disp_vectors = get_md_displacement_vectors(forces, velocities, self.dt);
        let ghost d0: Seq<V3> = disp_vectors@;
        scale_disp_vectors(&mut disp_vectors, self.maxdisp);
        proof {
            assert(drift_matches(d0, velocities@, forces@, dt_after(st0, power)));
        }
        disp_vectors
    }

    /// Exactly when a cycle succeeds: the forces (and any stored
    /// velocities) pair up and sit within the working range.
    pub open spec fn accepts(self, forces: Seq<V3>) -> bool {
        &&& forces.len() <= N_MAX
        &&& all_bounded(forces, WORK_LIM as int)
        &&& (self.velocities matches Some(v) ==> (v@.len() == forces.len() && all_bounded(
            v@,
            WORK_LIM as int,
        )))
    }

    /// Everything one successful FIRE cycle guarantees, relating the
    /// state before (`st0`) and after (`st1`), the forces, and the
    /// returned displacement proposal `d`.
    pub open spec fn cycle_post(st0: FIRE, st1: FIRE, forces: Seq<V3>, d: Seq<V3>) -> bool {
        let v0 = st0.stored_velocities(forces.len() as int);
        let power = dot_seq(forces, v0);
        &&& st1.dt == dt_after(st0, power)
        &&& st1.alpha == alpha_after(st0, power)
        &&& st1.nsteps == nsteps_after(st0, power)
        &&& (st1.velocities matches Some(vnew) && vnew@.len() == forces.len() && (forall|i: int|
            0 <= i < forces.len() ==> ((#[trigger] vnew@[i]).x == vel_after_c(
                v0[i].x as int,
                forces[i].x as int,
                st0,
                power,
                norm_seq(v0),
                norm_seq(forces),
            ) && vnew@[i].y == vel_after_c(
                v0[i].y as int,
                forces[i].y as int,
                st0,
                power,
                norm_seq(v0),
                norm_seq(forces),
            ) && vnew@[i].z == vel_after_c(
                v0[i].z as int,
                forces[i].z as int,
                st0,
                power,
                norm_seq(v0),
                norm_seq(forces),
            ))) && (exists|d0: Seq<V3>|
            #[trigger] drift_matches(d0, vnew@, forces, dt_after(st0, power)) && clip_rel(
                d0,
                d,
                st0.maxdisp as int,
            )))
        &&& d.len() == forces.len()
        &&& all_bounded(d, st0.maxdisp as int)
        &&& norm_sq_seq(d) < (st0.maxdisp + 1) * (st0.maxdisp + 1)
    }

    /// One FIRE cycle: returns the per-atom displacement proposal and
    /// updates the adaptive state.  Succeeds exactly on working-range
    /// inputs; the proposal always respects the displacement cap, and
    /// the new time step never exceeds `dt_max`.
    pub fn displacement_vectors(&mut self, forces: &Vec<V3>) -> (r: Result<Vec<V3>, Error>)
        requires
            old(self).wf(),
        ensures
            final(self).wf(),
            final(self).dt_max == old(self).dt_max,
            final(self).f_alpha == old(self).f_alpha,
            final(self).alpha_start == old(self).alpha_start,
            final(self).maxdisp == old(self).maxdisp,
            final(self).f_inc == old(self).f_inc,
            final(self).f_dec == old(self).f_dec,
            final(self).nsteps_min == old(self).nsteps_min,
            final(self).dt <= final(self).dt_max,
            r is Ok <==> old(self).accepts(forces@),
            r is Err ==> *final(self) == *old(self),
            r == Err::<Vec<V3>, Error>(Error::SizeMismatch) <==> (forces@.len() <= N_MAX
                && all_bounded(forces@, WORK_LIM as int) && (old(self).velocities matches Some(v)
                && v@.len() != forces@.len())),
            r matches Ok(d) ==> FIRE::cycle_post(*old(self), *final(self), forces@, d@),
    {
        let ghost st_begin: FIRE = *self;
        let n: usize = forces.len();
        if n > N_MAX {
            return Err(Error::OutOfRange);
        }
        if !crate::vector::check_bounded(forces, WORK_LIM) {
            return Err(Error::OutOfRange);
        }
        match &self.velocities {
            Some(v) => {
                if v.len() != n {
                    return Err(Error::SizeMismatch);
                }
                if !crate::vector::check_bounded(v, WORK_LIM) {
                    return Err(Error::OutOfRange);
                }
            },
            None => {},
        }
        let taken: Option<Vec<V3>> = self.velocities.take();
        let mut vels: Vec<V3> = match taken {
            Some(v) => v,
            None => zero_velocities(n),
        };
        proof {
            if old(self).velocities is None {
                assert(vels@ =~= old(self).stored_velocities(n as int));
            }
        }
        let ghost st_mid: FIRE = *self;
        let disp = self.propagate(forces, &mut vels);
        let ghost vfin: Seq<V3> = vels@;
        self.velocities = Some(vels);
        proof {
            let v0 = st_begin.stored_velocities(forces@.len() as int);
            let power = dot_seq(forces@, v0);
            assert(dt_after(st_mid, power) == dt_after(st_begin, power));
            assert(self.dt == dt_after(st_begin, power));
            assert(self.alpha == alpha_after(st_begin, power));
            assert(self.nsteps == nsteps_after(st_begin, power));
            assert(disp@.len() == forces@.len());
            assert(all_bounded(disp@, st_begin.maxdisp as int));
            let d0w = choose|d0: Seq<V3>|
                #[trigger] drift_matches(d0, vfin, forces@, dt_after(st_mid, power)) && clip_rel(
                    d0,
                    disp@,
                    st_mid.maxdisp as int,
                );
            assert(drift_matches(d0w, vfin, forces@, dt_after(st_begin, power)));
            assert(clip_rel(d0w, disp@, st_begin.maxdisp as int));
            assert(self.velocities matches Some(vnew) && vnew@ == vfin);
            assert(FIRE::cycle_post(st_begin, *self, forces@, disp@));
        }
        Ok(disp)
    }

    /// True exactly when every per-atom force norm is under the
    /// configured force threshold and every per-atom displacement norm
    /// is under the configured displacement threshold.
    pub fn converged(
        &self,
        forces: &Vec<V3>,
        displacement_vectors: &Vec<V3>,
        criteria: &crate::optimization::ConvergenceCriteria,
    ) -> (r: bool)
        requires
            forces@.len() == displacement_vectors@.len(),
            all_bounded(forces@, WORK_LIM as int),
            all_bounded(displacement_vectors@, WORK_LIM as int),
            criteria.wf(),
        ensures
            r == crate::optimization::converged_spec(
                forces@,
                displacement_vectors@,
                criteria.max_force as int,
                criteria.max_disp as int,
            ),
    {
        crate::optimization::check_converged(
            forces,
            displacement_vectors,
            criteria.max_force,
            criteria.max_disp,
        )
    }
}

impl Default for FIRE {
    /// The tuning constants of the original FIRE paper.
    fn default() -> (r: Self)
        ensures
            r.wf(),
            r.dt_max == 1_000_000,
            r.alpha_start == 100_000,
            r.f_alpha == 990_000,
            r.f_dec == 500_000,
            r.f_inc == 1_100_000,
            r.maxdisp == 100_000,
            r.nsteps_min == 5,
            r.dt == 100_000,
            r.alpha == 100_000,
            r.nsteps == 0,
            r.velocities is None,
    {
        FIRE {
            dt_max: 1_000_000,
            alpha_start: 100_000,
            f_alpha: 990_000,
            f_dec: 500_000,
            f_inc: 1_100_000,
            maxdisp: 100_000,
            nsteps_min: 5,
            dt: 100_000,
            alpha: 100_000,
            nsteps: 0,
            velocities: None,
        }
    }
}

impl crate::optimization::Optimizer for FIRE {
    open spec fn inv(&self) -> bool {
        self.wf()
    }

    fn displacements(&mut self, mp: &crate::models::ModelProperties) -> (r: Result<Vec<V3>, Error>)
        ensures
            mp.forces is None ==> r == Err::<Vec<V3>, Error>(Error::MissingForces { image: 0 }),
            mp.forces matches Some(f) ==> (r is Ok <==> old(self).accepts(f@)),
            r matches Ok(d) ==> (mp.forces matches Some(f) && FIRE::cycle_post(
                *old(self),
                *final(self),
                f@,
                d@,
            )),
            r is Err ==> *final(self) == *old(self),
    {
        match &mp.forces {
            Some(f) => {
                match self.displacement_vectors(f) {
                    Ok(d) => {
                        proof {
                            crate::vector::lemma_all_bounded_widen(
                                d@,
                                old(self).maxdisp as int,
                                WORK_LIM as int,
                            );
                        }
                        Ok(d)
                    },
                    Err(e) => Err(e),
                }
            },
            None => Err(Error::MissingForces { image: 0 }),
        }
    }
}

/// Law: whatever the power, a well-formed engine's adaptive time step
/// stays within `[0, dt_max]` after a cycle.
pub proof fn lemma_dt_within_bounds(st: FIRE, power: int)
    requires
        st.wf(),
    ensures
        0 <= dt_after(st, power) <= st.dt_max,
{
    if power >= 0 {
        if st.nsteps > st.nsteps_min {
            lemma_div_tz_abs(st.dt * st.f_inc, SCALE as int);
            assert(st.dt * st.f_inc >= 0) by (nonlinear_arith)
                requires
                    st.dt >= 0,
                    st.f_inc >= 0,
            {}
        }
    } else {
        lemma_mul_abs(st.dt as int, st.f_dec as int, st.dt_max as int, SCALE as int);
        assert((st.dt_max as int) * (SCALE as int) == (SCALE as int) * (st.dt_max as int))
            by (nonlinear_arith) {}
        lemma_div_tz_le(st.dt * st.f_dec, SCALE as int, st.dt_max as int);
        lemma_div_tz_abs(st.dt * st.f_dec, SCALE as int);
        assert(st.dt * st.f_dec >= 0) by (nonlinear_arith)
            requires
                st.dt >= 0,
                st.f_dec >= 0,
        {}
    }
}

/// Law: after an uphill cycle (negative power) the blended velocity is
/// discarded entirely — the stored velocity is rebuilt from exactly
/// zero, so each component holds only the fresh force kick.
pub proof fn lemma_uphill_resets_velocity(st0: FIRE, st1: FIRE, f: Seq<V3>, d: Seq<V3>)
    requires
        FIRE::cycle_post(st0, st1, f, d),
        dot_seq(f, st0.stored_velocities(f.len() as int)) < 0,
    ensures
        st1.velocities matches Some(v) && v@.len() == f.len() && (forall|i: int|
            0 <= i < f.len() ==> ((#[trigger] v@[i]).x == div_tz(
                f[i].x * dt_after(st0, dot_seq(f, st0.stored_velocities(f.len() as int))),
                SCALE as int,
            ) && v@[i].y == div_tz(
                f[i].y * dt_after(st0, dot_seq(f, st0.stored_velocities(f.len() as int))),
                SCALE as int,
            ) && v@[i].z == div_tz(
                f[i].z * dt_after(st0, dot_seq(f, st0.stored_velocities(f.len() as int))),
                SCALE as int,
            ))),
{
}

/// Law: handing the loop all-zero forces with a fresh engine produces
/// an all-zero displacement, and any positive thresholds report
/// convergence on that very first cycle.
pub proof fn lemma_zero_forces_first_cycle(
    st0: FIRE,
    st1: FIRE,
    f: Seq<V3>,
    d: Seq<V3>,
    fmax: int,
    dmax: int,
)
    requires
        st0.wf(),
        st0.velocities is None,
        forall|i: int| 0 <= i < f.len() ==> #[trigger] f[i] == V3::spec_zero(),
        FIRE::cycle_post(st0, st1, f, d),
        fmax >= 1,
        dmax >= 1,
    ensures
        forall|i: int| 0 <= i < d.len() ==> #[trigger] d[i] == V3::spec_zero(),
        crate::optimization::converged_spec(f, d, fmax, dmax),
{
    let n = f.len() as int;
    let v0 = st0.stored_velocities(n);
    let power = dot_seq(f, v0);
    assert forall|i: int| 0 <= i < f.len() implies #[trigger] crate::vector::v3_bounded(f[i], 0) by {
        assert(f[i] == V3::spec_zero());
    }
    assert forall|i: int| 0 <= i < v0.len() implies #[trigger] crate::vector::v3_bounded(
        v0[i],
        0,
    ) by {
        assert(v0[i] == V3::spec_zero());
    }
    crate::vector::lemma_dot_seq_bound(f, v0, 0, 0);
    assert(3 * f.len() * 0 * 0 == 0) by (nonlinear_arith) {}
    assert(power == 0);
    crate::vector::lemma_dot_seq_bound(v0, v0, 0, 0);
    crate::vector::lemma_dot_seq_bound(f, f, 0, 0);
    assert(norm_seq(v0) == 0);
    assert(norm_seq(f) == 0);
    let st_vnew = st1.velocities;
    assert(st_vnew is Some);
    let vnew = st_vnew->Some_0;
    assert forall|i: int| 0 <= i < f.len() implies #[trigger] vnew@[i] == V3::spec_zero() by {
        assert(vnew@[i].x == vel_after_c(v0[i].x as int, f[i].x as int, st0, power, 0, 0));
        assert(f[i] == V3::spec_zero());
        assert(v0[i] == V3::spec_zero());
        assert((SCALE - st0.alpha) * 0 == 0) by (nonlinear_arith) {}
        assert(blend_c(0, 0, st0.alpha as int, 0, 0) == 0);
        assert(kick_c(0, 0, dt_after(st0, power)) == 0);
    }
    let dt1 = dt_after(st0, power);
    let d0 = choose|d0: Seq<V3>|
        #[trigger] drift_matches(d0, vnew@, f, dt1) && clip_rel(d0, d, st0.maxdisp as int);
    assert forall|i: int| 0 <= i < d0.len() implies #[trigger] d0[i] == V3::spec_zero() by {
        assert(d0[i].x == drift_c(vnew@[i].x as int, f[i].x as int, dt1));
        assert(vnew@[i] == V3::spec_zero());
        assert(f[i] == V3::spec_zero());
        assert(drift_c(0, 0, dt1) == 0);
    }
    assert forall|i: int| 0 <= i < d0.len() implies #[trigger] crate::vector::v3_bounded(
        d0[i],
        0,
    ) by {
        assert(d0[i] == V3::spec_zero());
    }
    lemma_dot_seq_bound(d0, d0, 0, 0);
    assert(3 * d0.len() * 0 * 0 == 0) by (nonlinear_arith) {}
    lemma_norm_sq_seq_nonneg(d0);
    assert(norm_sq_seq(d0) == 0);
    assert(isqrt_spec(0) == 0);
    assert(d == d0);
    assert forall|i: int| 0 <= i < d.len() implies v3_norm_sq(#[trigger] d[i]) < dmax * dmax by {
        assert(d[i] == V3::spec_zero());
        assert(dmax * dmax >= 1) by (nonlinear_arith)
            requires
                dmax >= 1,
        {}
    }
    assert forall|i: int| 0 <= i < f.len() implies v3_norm_sq(#[trigger] f[i]) < fmax * fmax by {
        assert(f[i] == V3::spec_zero());
        assert(fmax * fmax >= 1) by (nonlinear_arith)
            requires
                fmax >= 1,
        {}
    }
}

/// A zero velocity per atom.
fn zero_velocities(natoms: usize) -> (r: Vec<V3>)
    ensures
        r@.len() == natoms,
        forall|i: int| 0 <= i < natoms ==> #[trigger] r@[i] == V3::spec_zero(),
{
    let mut r: Vec<V3> = Vec::new();
    let mut i: usize = 0;
    while i < natoms
        invariant
            0 <= i <= natoms,
            r@.len() == i,
            forall|j: int| 0 <= j < i ==> #[trigger] r@[j] == V3::spec_zero(),
        decreases natoms - i,
    {
        r.push(V3::zero());
        i = i + 1;
    }
    r
}

/// Blend the velocities toward the force direction:
/// `V = (1 - alpha) * V + alpha * F / |F| * |V|`.
fn update_velocities(velocities: &mut Vec<V3>, forces: &Vec<V3>, alpha: i64)
    requires
        old(velocities)@.len() == forces@.len(),
        forces@.len() <= N_MAX,
        all_bounded(old(velocities)@, WORK_LIM as int),
        all_bounded(forces@, WORK_LIM as int),
        0 <= alpha <= SCALE,
    ensures
        final(velocities)@.len() == forces@.len(),
        all_bounded(final(velocities)@, BLEND_LIM as int),
        forall|i: int|
            0 <= i < forces@.len() ==> ((#[trigger] final(velocities)@[i]).x == blend_c(
                old(velocities)@[i].x as int,
                forces@[i].x as int,
                alpha as int,
                norm_seq(old(velocities)@),
                norm_seq(forces@),
            ) && final(velocities)@[i].y == blend_c(
                old(velocities)@[i].y as int,
                forces@[i].y as int,
                alpha as int,
                norm_seq(old(velocities)@),
                norm_seq(forces@),
            ) && final(velocities)@[i].z == blend_c(
                old(velocities)@[i].z as int,
                forces@[i].z as int,
                alpha as int,
                norm_seq(old(velocities)@),
                norm_seq(forces@),
            )),
{
    let n: usize = forces.len();
    proof {
        crate::vector::lemma_norm_work_bound(old(velocities)@);
        crate::vector::lemma_norm_work_bound(forces@);
        crate::vector::lemma_all_bounded_widen(
            old(velocities)@,
            WORK_LIM as int,
            crate::vector::DOT_LIM as int,
        );
        crate::vector::lemma_all_bounded_widen(
            forces@,
            WORK_LIM as int,
            crate::vector::DOT_LIM as int,
        );
    }
    let vnorm: i64 = norm_raw(velocities);
    let fnorm: i64 = norm_raw(forces);
    let mut i: usize = 0;
    while i < n
        invariant
            0 <= i <= n,
            n == forces@.len(),
            velocities@.len() == n,
            old(velocities)@.len() == n,
            all_bounded(forces@, WORK_LIM as int),
            0 <= alpha <= SCALE,
            vnorm == norm_seq(old(velocities)@),
            fnorm == norm_seq(forces@),
            0 <= vnorm < NORM_LIM,
            0 <= fnorm < NORM_LIM,
            forall|j: int| i <= j < n ==> #[trigger] velocities@[j] == old(velocities)@[j],
            all_bounded(old(velocities)@, WORK_LIM as int),
            forall|j: int|
                0 <= j < i ==> ((#[trigger] velocities@[j]).x == blend_c(
                    old(velocities)@[j].x as int,
                    forces@[j].x as int,
                    alpha as int,
                    vnorm as int,
                    fnorm as int,
                ) && velocities@[j].y == blend_c(
                    old(velocities)@[j].y as int,
                    forces@[j].y as int,
                    alpha as int,
                    vnorm as int,
                    fnorm as int,
                ) && velocities@[j].z == blend_c(
                    old(velocities)@[j].z as int,
                    forces@[j].z as int,
                    alpha as int,
                    vnorm as int,
                    fnorm as int,
                )),
            forall|j: int| 0 <= j < i ==> v3_bounded_blend(#[trigger] velocities@[j]),
        decreases n - i,
    {
        let v = velocities[i];
        let f = forces[i];
        proof {
            assert(velocities@[i as int] == old(velocities)@[i as int]);
            assert(crate::vector::v3_bounded(old(velocities)@[i as int], WORK_LIM as int));
            assert(crate::vector::v3_bounded(forces@[i as int], WORK_LIM as int));
            lemma_component_le_norm(forces@, i as int);
        }
        let nx = blend_component(v.x, f.x, alpha, vnorm, fnorm);
        let ny = blend_component(v.y, f.y, alpha, vnorm, fnorm);
        let nz = blend_component(v.z, f.z, alpha, vnorm, fnorm);
        velocities.set(i, V3 { x: nx, y: ny, z: nz });
        i = i + 1;
    }
}

/// Shorthand for the blend bound, used as a loop invariant trigger.
pub open spec fn v3_bounded_blend(v: V3) -> bool {
    crate::vector::v3_bounded(v, BLEND_LIM as int)
}

/// One blended component; the caller supplies the two global norms.
fn blend_component(vc: i64, fc: i64, alpha: i64, vnorm: i64, fnorm: i64) -> (r: i64)
    requires
        abs_i(vc as int) <= WORK_LIM,
        abs_i(fc as int) <= WORK_LIM,
        0 <= alpha <= SCALE,
        0 <= vnorm < NORM_LIM,
        0 <= fnorm < NORM_LIM,
        abs_i(fc as int) <= fnorm || fnorm == 0,
    ensures
        r == blend_c(vc as int, fc as int, alpha as int, vnorm as int, fnorm as int),
        abs_i(r as int) <= BLEND_LIM,
{
    proof {
        lemma_mul_abs((SCALE - alpha) as int, vc as int, SCALE as int, WORK_LIM as int);
        lemma_div_tz_le((SCALE - alpha) * vc, SCALE as int, WORK_LIM as int);
    }
    let t1: i128 = div_trunc(((SCALE - alpha) as i128) * (vc as i128), SCALE as i128);
    let t2: i128 = if fnorm == 0 {
        0
    } else {
        proof {
            lemma_mul_abs(fc as int, vnorm as int, NORM_LIM as int, NORM_LIM as int);
            lemma_mul_abs(fc as int, vnorm as int, fnorm as int, vnorm as int);
            lemma_div_tz_le(fc * vnorm, fnorm as int, vnorm as int);
        }
        let inner: i128 = div_trunc((fc as i128) * (vnorm as i128), fnorm as i128);
        proof {
            lemma_mul_abs(alpha as int, inner as int, SCALE as int, vnorm as int);
            lemma_div_tz_le(alpha * (inner as int), SCALE as int, vnorm as int);
        }
        div_trunc((alpha as i128) * inner, SCALE as i128)
    };
    (t1 + t2) as i64
}

/// Kick the velocities by the forces: `V = V + F * dt`.
fn kick_velocities(velocities: &mut Vec<V3>, forces: &Vec<V3>, dt: i64)
    requires
        old(velocities)@.len() == forces@.len(),
        all_bounded(old(velocities)@, BLEND_LIM as int),
        all_bounded(forces@, WORK_LIM as int),
        0 <= dt <= DT_LIM,
    ensures
        final(velocities)@.len() == forces@.len(),
        all_bounded(final(velocities)@, VSTEP_LIM as int),
        forall|i: int|
            0 <= i < forces@.len() ==> ((#[trigger] final(velocities)@[i]).x == kick_c(
                old(velocities)@[i].x as int,
                forces@[i].x as int,
                dt as int,
            ) && final(velocities)@[i].y == kick_c(
                old(velocities)@[i].y as int,
                forces@[i].y as int,
                dt as int,
            ) && final(velocities)@[i].z == kick_c(
                old(velocities)@[i].z as int,
                forces@[i].z as int,
                dt as int,
            )),
{
    let n: usize = forces.len();
    let mut i: usize = 0;
    while i < n
        invariant
            0 <= i <= n,
            n == forces@.len(),
            velocities@.len() == n,
            old(velocities)@.len() == n,
            all_bounded(forces@, WORK_LIM as int),
            all_bounded(old(velocities)@, BLEND_LIM as int),
            0 <= dt <= DT_LIM,
            forall|j: int| i <= j < n ==> #[trigger] velocities@[j] == old(velocities)@[j],
            forall|j: int|
                0 <= j < i ==> ((#[trigger] velocities@[j]).x == kick_c(
                    old(velocities)@[j].x as int,
                    forces@[j].x as int,
                    dt as int,
                ) && velocities@[j].y == kick_c(
                    old(velocities)@[j].y as int,
                    forces@[j].y as int,
                    dt as int,
                ) && velocities@[j].z == kick_c(
                    old(velocities)@[j].z as int,
                    forces@[j].z as int,
                    dt as int,
                )),
            forall|j: int|
                0 <= j < i ==> crate::vector::v3_bounded(#[trigger] velocities@[j], VSTEP_LIM as int),
        decreases n - i,
    {
        let v = velocities[i];
        let f = forces[i];
        proof {
            assert(velocities@[i as int] == old(velocities)@[i as int]);
            assert(crate::vector::v3_bounded(old(velocities)@[i as int], BLEND_LIM as int));
            assert(crate::vector::v3_bounded(forces@[i as int], WORK_LIM as int));
        }
        let nx = kick_component(v.x, f.x, dt);
        let ny = kick_component(v.y, f.y, dt);
        let nz = kick_component(v.z, f.z, dt);
        velocities.set(i, V3 { x: nx, y: ny, z: nz });
        i = i + 1;
    }
}

fn kick_component(vc: i64, fc: i64, dt: i64) -> (r: i64)
    requires
        abs_i(vc as int) <= BLEND_LIM,
        abs_i(fc as int) <= WORK_LIM,
        0 <= dt <= DT_LIM,
    ensures
        r == kick_c(vc as int, fc as int, dt as int),
        abs_i(r as int) <= VSTEP_LIM,
{
    proof {
        lemma_mul_abs(fc as int, dt as int, WORK_LIM as int, DT_LIM as int);
        lemma_div_tz_le(fc * dt, SCALE as int, 16 * (WORK_LIM as int));
    }
    let t: i128 = div_trunc((fc as i128) * (dt as i128), SCALE as i128);
    ((vc as i128) + t) as i64
}

/// One displacement component of a Verlet step:
/// `d = v * dt + f * dt * dt / 2`.
fn drift_component(vc: i64, fc: i64, dt: i64) -> (r: i64)
    requires
        abs_i(vc as int) <= VSTEP_LIM,
        abs_i(fc as int) <= WORK_LIM,
        0 <= dt <= DT_LIM,
    ensures
        r == drift_c(vc as int, fc as int, dt as int),
        abs_i(r as int) <= DISP_LIM,
{
    proof {
        lemma_mul_abs(vc as int, dt as int, VSTEP_LIM as int, DT_LIM as int);
        lemma_div_tz_le(vc * dt, SCALE as int, 16 * (VSTEP_LIM as int));
        lemma_mul_abs(fc as int, dt as int, WORK_LIM as int, DT_LIM as int);
        lemma_mul_abs(fc * dt, dt as int, WORK_LIM as int * DT_LIM as int, DT_LIM as int);
        lemma_div_tz_le(
            fc * dt * dt,
            2 * (SCALE as int) * (SCALE as int),
            128 * (WORK_LIM as int),
        );
    }
    let t1: i128 = div_trunc((vc as i128) * (dt as i128), SCALE as i128);
    let t2: i128 = div_trunc(
        (fc as i128) * (dt as i128) * (dt as i128),
        2 * (SCALE as i128) * (SCALE as i128),
    );
    (t1 + t2) as i64
}

/// Per-atom displacements of one Verlet step over the whole system.
fn get_md_displacement_vectors(forces: &Vec<V3>, velocities: &Vec<V3>, timestep: i64) -> (r: Vec<
    V3,
>)
    requires
        velocities@.len() == forces@.len(),
        all_bounded(velocities@, VSTEP_LIM as int),
        all_bounded(forces@, WORK_LIM as int),
        0 <= timestep <= DT_LIM,
    ensures
        r@.len() == forces@.len(),
        all_bounded(r@, DISP_LIM as int),
        forall|i: int|
            0 <= i < forces@.len() ==> ((#[trigger] r@[i]).x == drift_c(
                velocities@[i].x as int,
                forces@[i].x as int,
                timestep as int,
            ) && r@[i].y == drift_c(
                velocities@[i].y as int,
                forces@[i].y as int,
                timestep as int,
            ) && r@[i].z == drift_c(
                velocities@[i].z as int,
                forces@[i].z as int,
                timestep as int,
            )),
{
    let n: usize = forces.len();
    let mut r: Vec<V3> = Vec::new();
    let mut i: usize = 0;
    while i < n
        invariant
            0 <= i <= n,
            n == forces@.len(),
            velocities@.len() == n,
            all_bounded(forces@, WORK_LIM as int),
            all_bounded(velocities@, VSTEP_LIM as int),
            0 <= timestep <= DT_LIM,
            r@.len() == i,
            forall|j: int|
                0 <= j < i ==> ((#[trigger] r@[j]).x == drift_c(
                    velocities@[j].x as int,
                    forces@[j].x as int,
                    timestep as int,
                ) && r@[j].y == drift_c(
                    velocities@[j].y as int,
                    forces@[j].y as int,
                    timestep as int,
                ) && r@[j].z == drift_c(
                    velocities@[j].z as int,
                    forces@[j].z as int,
                    timestep as int,
                )),
            forall|j: int| 0 <= j < i ==> crate::vector::v3_bounded(#[trigger] r@[j], DISP_LIM as int),
        decreases n - i,
    {
        let v = velocities[i];
        let f = forces[i];
        proof {
            assert(crate::vector::v3_bounded(velocities@[i as int], VSTEP_LIM as int));
            assert(crate::vector::v3_bounded(forces@[i as int], WORK_LIM as int));
        }
        let dx = drift_component(v.x, f.x, timestep);
        let dy = drift_component(v.y, f.y, timestep);
        let dz = drift_component(v.z, f.z, timestep);
        r.push(V3 { x: dx, y: dy, z: dz });
        i = i + 1;
    }
    r
}

/// One component's square after scaling, bounded through the divisions:
/// `g = (d * factor) / s` gives `g^2 * s^2 <= d^2 * factor^2`.
proof fn lemma_scaled_sq(d: int, factor: int, g: int, s: int)
    requires
        s >= 1,
        g == div_tz(d * factor, s),
    ensures
        g * g * (s * s) <= (d * d) * (factor * factor),
{
    lemma_div_tz_abs(d * factor, s);
    let a = abs_i(g);
    let b = abs_i(d * factor);
    assert(a * s <= b);
    assert(g * g * (s * s) <= b * b) by (nonlinear_arith)
        requires
            a >= 0,
            b >= 0,
            s >= 1,
            a * s <= b,
            g == a || g == -a,
    {}
    assert(b * b == (d * d) * (factor * factor)) by (nonlinear_arith)
        requires
            b == d * factor || b == -(d * factor),
    {}
}

/// One atom's scaled squared norm against its original, with the
/// scale and the factor attached.
proof fn lemma_atom_scaled_sq(d: V3, g: V3, factor: int)
    requires
        g.x == div_tz(d.x * factor, SCALE as int),
        g.y == div_tz(d.y * factor, SCALE as int),
        g.z == div_tz(d.z * factor, SCALE as int),
    ensures
        v3_norm_sq(g) * ((SCALE as int) * (SCALE as int)) <= v3_norm_sq(d) * (factor * factor),
{
    let s = SCALE as int;
    lemma_scaled_sq(d.x as int, factor, g.x as int, s);
    lemma_scaled_sq(d.y as int, factor, g.y as int, s);
    lemma_scaled_sq(d.z as int, factor, g.z as int, s);
    assert((g.x * g.x + g.y * g.y + g.z * g.z) * (s * s) <= (d.x * d.x + d.y * d.y + d.z * d.z) * (
    factor * factor)) by (nonlinear_arith)
        requires
            g.x * g.x * (s * s) <= (d.x * d.x) * (factor * factor),
            g.y * g.y * (s * s) <= (d.y * d.y) * (factor * factor),
            g.z * g.z * (s * s) <= (d.z * d.z) * (factor * factor),
    {}
}

/// Summed over the whole system, componentwise scaling keeps the
/// global sum of squares within the original's, times the factors.
proof fn lemma_norm_sq_scaled(d0: Seq<V3>, d1: Seq<V3>, factor: int)
    requires
        d1.len() == d0.len(),
        forall|i: int|
            0 <= i < d0.len() ==> ((#[trigger] d1[i]).x == div_tz(d0[i].x * factor, SCALE as int)
                && d1[i].y == div_tz(d0[i].y * factor, SCALE as int) && d1[i].z == div_tz(
                d0[i].z * factor,
                SCALE as int,
            )),
    ensures
        norm_sq_seq(d1) * ((SCALE as int) * (SCALE as int)) <= norm_sq_seq(d0) * (factor * factor),
    decreases d0.len(),
{
    let s = SCALE as int;
    if d0.len() == 0 {
        assert(0 * (s * s) == 0 && 0 * (factor * factor) == 0) by (nonlinear_arith) {}
    } else {
        assert forall|i: int| 0 <= i < d0.drop_last().len() implies ((#[trigger] d1.drop_last()[i]).x
            == div_tz(d0.drop_last()[i].x * factor, SCALE as int) && d1.drop_last()[i].y == div_tz(
            d0.drop_last()[i].y * factor,
            SCALE as int,
        ) && d1.drop_last()[i].z == div_tz(d0.drop_last()[i].z * factor, SCALE as int)) by {
            assert(d1.drop_last()[i] == d1[i]);
            assert(d0.drop_last()[i] == d0[i]);
        }
        lemma_norm_sq_scaled(d0.drop_last(), d1.drop_last(), factor);
        lemma_atom_scaled_sq(d0.last(), d1.last(), factor);
        let pa = norm_sq_seq(d1.drop_last());
        let pb = norm_sq_seq(d0.drop_last());
        let la = v3_norm_sq(d1.last());
        let lb = v3_norm_sq(d0.last());
        assert((pa + la) * (s * s) <= (pb + lb) * (factor * factor)) by (nonlinear_arith)
            requires
                pa * (s * s) <= pb * (factor * factor),
                la * (s * s) <= lb * (factor * factor),
        {}
    }
}

/// The heart of the displacement cap: a uniform scaling by
/// `maxdisp / norm` (both divisions truncating) lands the global sum of
/// squares within the cap, because the roundings shrink magnitudes and
/// the integer root is off from the true norm by less than one.
proof fn lemma_clip_chain(ssg: int, ssd: int, factor: int, ng: int, maxdisp: int)
    requires
        ssg * ((SCALE as int) * (SCALE as int)) <= ssd * (factor * factor),
        factor == div_tz(maxdisp * SCALE, ng),
        ssd >= 0,
        ssg >= 0,
        ng == isqrt_spec(ssd),
        0 <= maxdisp < ng,
    ensures
        ssg < (maxdisp + 1) * (maxdisp + 1),
{
    let s = SCALE as int;
    lemma_div_tz_abs(maxdisp * s, ng);
    assert(maxdisp * s >= 0) by (nonlinear_arith)
        requires
            maxdisp >= 0,
            s >= 1,
    {}
    assert(factor >= 0);
    assert(factor * ng <= maxdisp * s) by (nonlinear_arith)
        requires
            factor >= 0,
            ng >= 1,
            maxdisp * s >= 0,
            abs_i(div_tz(maxdisp * s, ng)) * abs_i(ng) <= abs_i(maxdisp * s),
            factor == div_tz(maxdisp * s, ng),
            abs_i(factor) == factor,
            abs_i(ng) == ng,
            abs_i(maxdisp * s) == maxdisp * s,
    {}
    assert(ssd * (factor * factor) * (ng * ng) <= ssd * ((maxdisp * s) * (maxdisp * s)))
        by (nonlinear_arith)
        requires
            ssd >= 0,
            factor >= 0,
            ng >= 1,
            factor * ng <= maxdisp * s,
    {}
    lemma_isqrt_bounds(ssd);
    assert(ssd <= ng * ng + 2 * ng) by (nonlinear_arith)
        requires
            ssd < (ng + 1) * (ng + 1),
    {}
    // chain everything and cancel the positive factors s^2 and ng
    assert(ssg <= maxdisp * maxdisp + 2 * maxdisp) by (nonlinear_arith)
        requires
            ssg * (s * s) <= ssd * (factor * factor),
            ssd * (factor * factor) * (ng * ng) <= ssd * ((maxdisp * s) * (maxdisp * s)),
            ssd <= ng * ng + 2 * ng,
            ssg >= 0,
            ssd >= 0,
            s >= 1,
            ng >= 1,
            0 <= maxdisp < ng,
    {}
    assert(ssg < (maxdisp + 1) * (maxdisp + 1)) by (nonlinear_arith)
        requires
            ssg <= maxdisp * maxdisp + 2 * maxdisp,
    {}
}

/// The saturation threshold for the global sum of squares: beyond it
/// the norm so dwarfs any admissible cap that the uniform factor, and
/// with it every scaled component, truncates to exactly zero.
const CLIP_SAT: i128 = 0x200_0000_0000_0000_0000_0000_0000_0000;

/// Scale the displacement vectors down if the global displacement
/// norm exceeds `maxdisp`, scaling all atoms uniformly; the global
/// norm of the result always ends within `maxdisp`.
fn scale_disp_vectors(disp_vectors: &mut Vec<V3>, maxdisp: i64)
    requires
        old(disp_vectors)@.len() <= N_MAX,
        all_bounded(old(disp_vectors)@, DISP_LIM as int),
        0 <= maxdisp <= WORK_LIM,
    ensures
        final(disp_vectors)@.len() == old(disp_vectors)@.len(),
        clip_rel(old(disp_vectors)@, final(disp_vectors)@, maxdisp as int),
        all_bounded(final(disp_vectors)@, maxdisp as int),
        norm_sq_seq(final(disp_vectors)@) < (maxdisp + 1) * (maxdisp + 1),
{
    let n: usize = disp_vectors.len();
    // global sum of squares, saturating far beyond any admissible cap
    let mut ss: i128 = 0;
    let mut sat: bool = false;
    let mut i: usize = 0;
    while i < n && !sat
        invariant
            0 <= i <= n,
            n == disp_vectors@.len(),
            disp_vectors@ == old(disp_vectors)@,
            all_bounded(disp_vectors@, DISP_LIM as int),
            0 <= maxdisp <= WORK_LIM,
            !sat ==> (ss == norm_sq_seq(disp_vectors@.take(i as int)) && 0 <= ss <= CLIP_SAT),
            sat ==> norm_sq_seq(disp_vectors@) > CLIP_SAT as int,
        decreases n - i,
    {
        let v = disp_vectors[i];
        proof {
            assert(crate::vector::v3_bounded(disp_vectors@[i as int], DISP_LIM as int));
            lemma_mul_abs(v.x as int, v.x as int, DISP_LIM as int, DISP_LIM as int);
            lemma_mul_abs(v.y as int, v.y as int, DISP_LIM as int, DISP_LIM as int);
            lemma_mul_abs(v.z as int, v.z as int, DISP_LIM as int, DISP_LIM as int);
            lemma_dot_seq_take_step(disp_vectors@, disp_vectors@, i as int);
            crate::vector::lemma_v3_norm_sq_bounds(disp_vectors@[i as int]);
        }
        let asq: i128 = (v.x as i128) * (v.x as i128) + (v.y as i128) * (v.y as i128) + (v.z
            as i128) * (v.z as i128);
        ss = ss + asq;
        i = i + 1;
        if ss > CLIP_SAT {
            proof {
                lemma_norm_sq_prefix_le(disp_vectors@, i as int);
            }
            sat = true;
        }
    }
    if sat {
        // the norm exceeds maxdisp * scale: the uniform factor, and so
        // every scaled component, is exactly zero
        proof {
            assert(((maxdisp as int) * (SCALE as int) + 1) * ((maxdisp as int) * (SCALE as int)
                + 1) <= CLIP_SAT as int) by (nonlinear_arith)
                requires
                    0 <= maxdisp <= WORK_LIM,
            {}
            lemma_isqrt_ge(
                norm_sq_seq(old(disp_vectors)@),
                (maxdisp as int) * (SCALE as int) + 1,
            );
            assert((maxdisp as int) * (SCALE as int) + 1 > maxdisp as int) by (nonlinear_arith)
                requires
                    maxdisp >= 0,
            {}
            let nrm = norm_seq(old(disp_vectors)@);
            assert(0 <= (maxdisp as int) * (SCALE as int) < nrm) by (nonlinear_arith)
                requires
                    maxdisp >= 0,
                    nrm >= (maxdisp as int) * (SCALE as int) + 1,
            {}
            lemma_div_tz_abs(maxdisp * SCALE, norm_seq(old(disp_vectors)@));
            vstd::arithmetic::div_mod::lemma_basic_div(
                (maxdisp as int) * (SCALE as int),
                norm_seq(old(disp_vectors)@),
            );
            assert(div_tz(maxdisp * SCALE, norm_seq(old(disp_vectors)@)) == 0);
        }
        let mut k: usize = 0;
        while k < n
            invariant
                0 <= k <= n,
                n == disp_vectors@.len(),
                old(disp_vectors)@.len() == n,
                0 <= maxdisp,
                norm_seq(old(disp_vectors)@) > maxdisp as int,
                div_tz(maxdisp * SCALE, norm_seq(old(disp_vectors)@)) == 0,
                forall|j: int| 0 <= j < k ==> #[trigger] disp_vectors@[j] == V3::spec_zero(),
            decreases n - k,
        {
            disp_vectors.set(k, V3::zero());
            k = k + 1;
        }
        proof {
            assert forall|j: int| 0 <= j < n implies ((#[trigger] disp_vectors@[j]).x == div_tz(
                old(disp_vectors)@[j].x * div_tz(maxdisp * SCALE, norm_seq(old(disp_vectors)@)),
                SCALE as int,
            ) && disp_vectors@[j].y == div_tz(
                old(disp_vectors)@[j].y * div_tz(maxdisp * SCALE, norm_seq(old(disp_vectors)@)),
                SCALE as int,
            ) && disp_vectors@[j].z == div_tz(
                old(disp_vectors)@[j].z * div_tz(maxdisp * SCALE, norm_seq(old(disp_vectors)@)),
                SCALE as int,
            )) by {
                let dj = old(disp_vectors)@[j];
                assert(dj.x * 0 == 0 && dj.y * 0 == 0 && dj.z * 0 == 0) by (nonlinear_arith) {}
                assert(disp_vectors@[j] == V3::spec_zero());
            }
            assert forall|j: int| 0 <= j < n implies #[trigger] crate::vector::v3_bounded(
                disp_vectors@[j],
                0,
            ) by {
                assert(disp_vectors@[j] == V3::spec_zero());
            }
            lemma_dot_seq_bound(disp_vectors@, disp_vectors@, 0, 0);
            assert(3 * disp_vectors@.len() * 0 * 0 == 0) by (nonlinear_arith) {}
            lemma_norm_sq_seq_nonneg(disp_vectors@);
            assert(norm_sq_seq(disp_vectors@) == 0);
            assert((maxdisp + 1) * (maxdisp + 1) >= 1) by (nonlinear_arith)
                requires
                    maxdisp >= 0,
            {}
            lemma_all_bounded_widen(disp_vectors@, 0, maxdisp as int);
        }
        return;
    }
    // the exact global sum of squares is in hand
    proof {
        assert(disp_vectors@.take(n as int) =~= disp_vectors@);
        lemma_isqrt_le(ss as int, 0x4000_0000_0000_0000 - 1);
        lemma_isqrt_bounds(ss as int);
    }
    let ng: i64 = isqrt(ss as u128) as i64;
    if ng > maxdisp {
        proof {
            lemma_mul_abs(maxdisp as int, SCALE as int, WORK_LIM as int, SCALE as int);
            lemma_div_tz_abs(maxdisp * SCALE, ng as int);
        }
        let factor: i64 = div_trunc((maxdisp as i128) * (SCALE as i128), ng as i128) as i64;
        proof {
            assert((maxdisp as int) * (SCALE as int) >= 0) by (nonlinear_arith)
                requires
                    maxdisp >= 0,
            {}
            assert(factor >= 0);
            assert((factor as int) * (ng as int) <= (maxdisp as int) * (SCALE as int))
                by (nonlinear_arith)
                requires
                    factor >= 0,
                    ng >= 1,
                    (maxdisp as int) * (SCALE as int) >= 0,
                    abs_i(div_tz(maxdisp * SCALE, ng as int)) * abs_i(ng as int) <= abs_i(
                        (maxdisp as int) * (SCALE as int),
                    ),
                    factor == div_tz(maxdisp * SCALE, ng as int),
                    abs_i(factor as int) == factor as int,
                    abs_i(ng as int) == ng as int,
                    abs_i((maxdisp as int) * (SCALE as int)) == (maxdisp as int) * (SCALE as int),
            {}
            assert(abs_i(factor as int) <= (WORK_LIM as int) * (SCALE as int)) by (nonlinear_arith)
                requires
                    0 <= factor,
                    abs_i(factor as int) <= (maxdisp as int) * (SCALE as int),
                    0 <= maxdisp <= WORK_LIM,
                    abs_i(factor as int) == factor as int,
            {}
        }
        let ghost d0: Seq<V3> = disp_vectors@;
        let mut k: usize = 0;
        while k < n
            invariant
                0 <= k <= n,
                n == disp_vectors@.len(),
                d0.len() == n,
                d0 == old(disp_vectors)@,
                all_bounded(d0, DISP_LIM as int),
                0 <= maxdisp <= WORK_LIM,
                0 <= maxdisp < ng,
                ss == norm_sq_seq(d0),
                0 <= ss,
                ng == isqrt_spec(ss as int),
                0 <= factor,
                factor == div_tz(maxdisp * SCALE, ng as int),
                (factor as int) * (ng as int) <= (maxdisp as int) * (SCALE as int),
                abs_i(factor as int) <= (WORK_LIM as int) * (SCALE as int),
                forall|j: int| k <= j < n ==> #[trigger] disp_vectors@[j] == d0[j],
                forall|j: int|
                    0 <= j < k ==> ((#[trigger] disp_vectors@[j]).x == div_tz(
                        d0[j].x * factor,
                        SCALE as int,
                    ) && disp_vectors@[j].y == div_tz(d0[j].y * factor, SCALE as int)
                        && disp_vectors@[j].z == div_tz(d0[j].z * factor, SCALE as int)),
                forall|j: int|
                    0 <= j < k ==> crate::vector::v3_bounded(
                        #[trigger] disp_vectors@[j],
                        maxdisp as int,
                    ),
            decreases n - k,
        {
            let v = disp_vectors[k];
            proof {
                assert(disp_vectors@[k as int] == d0[k as int]);
                assert(crate::vector::v3_bounded(d0[k as int], DISP_LIM as int));
                lemma_mul_abs(
                    v.x as int,
                    factor as int,
                    DISP_LIM as int,
                    (WORK_LIM as int) * (SCALE as int),
                );
                lemma_mul_abs(
                    v.y as int,
                    factor as int,
                    DISP_LIM as int,
                    (WORK_LIM as int) * (SCALE as int),
                );
                lemma_mul_abs(
                    v.z as int,
                    factor as int,
                    DISP_LIM as int,
                    (WORK_LIM as int) * (SCALE as int),
                );
                // each component is bounded by the global norm, so the
                // scaled component lands within maxdisp
                lemma_norm_sq_seq_elem(d0, k as int);
                crate::vector::lemma_v3_norm_sq_bounds(d0[k as int]);
                lemma_sq_le_isqrt(ss as int, d0[k as int].x as int);
                lemma_sq_le_isqrt(ss as int, d0[k as int].y as int);
                lemma_sq_le_isqrt(ss as int, d0[k as int].z as int);
                lemma_mul_abs(v.x as int, factor as int, ng as int, factor as int);
                lemma_mul_abs(v.y as int, factor as int, ng as int, factor as int);
                lemma_mul_abs(v.z as int, factor as int, ng as int, factor as int);
                assert((ng as int) * (factor as int) == (factor as int) * (ng as int))
                    by (nonlinear_arith) {}
                assert((maxdisp as int) * (SCALE as int) == (SCALE as int) * (maxdisp as int))
                    by (nonlinear_arith) {}
                lemma_div_tz_le(v.x * factor, SCALE as int, maxdisp as int);
                lemma_div_tz_le(v.y * factor, SCALE as int, maxdisp as int);
                lemma_div_tz_le(v.z * factor, SCALE as int, maxdisp as int);
            }
            let gx: i64 = div_trunc((v.x as i128) * (factor as i128), SCALE as i128) as i64;
            let gy: i64 = div_trunc((v.y as i128) * (factor as i128), SCALE as i128) as i64;
            let gz: i64 = div_trunc((v.z as i128) * (factor as i128), SCALE as i128) as i64;
            disp_vectors.set(k, V3 { x: gx, y: gy, z: gz });
            k = k + 1;
        }
        proof {
            lemma_norm_sq_scaled(d0, disp_vectors@, factor as int);
            lemma_norm_sq_seq_nonneg(disp_vectors@);
            lemma_clip_chain(
                norm_sq_seq(disp_vectors@),
                ss as int,
                factor as int,
                ng as int,
                maxdisp as int,
            );
        }
    } else {
        proof {
            // untouched: the global norm was already within the cap
            assert((ng + 1) * (ng + 1) <= (maxdisp + 1) * (maxdisp + 1)) by (nonlinear_arith)
                requires
                    0 <= ng <= maxdisp,
            {}
            assert forall|i2: int| 0 <= i2 < disp_vectors@.len() implies #[trigger] crate::vector::v3_bounded(
                disp_vectors@[i2],
                maxdisp as int,
            ) by {
                lemma_norm_sq_seq_elem(disp_vectors@, i2);
                crate::vector::lemma_v3_norm_sq_bounds(disp_vectors@[i2]);
                lemma_sq_le_isqrt(ss as int, disp_vectors@[i2].x as int);
                lemma_sq_le_isqrt(ss as int, disp_vectors@[i2].y as int);
                lemma_sq_le_isqrt(ss as int, disp_vectors@[i2].z as int);
            }
        }
    }
}

} // verus!
