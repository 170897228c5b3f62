//! The optimization engine: the generic relaxation loop, its
//! convergence policy, and the displacement strategies.

use vstd::prelude::*;
use crate::error::Error;
use crate::models::{ChemicalModel, ModelProperties, Structure};
use crate::num::WORK_LIM;
use crate::vector::{all_bounded, v3_norm_sq, V3};

pub mod cg;
pub mod fire;
pub mod line;
pub mod neb;

verus! {

/// When an optimization stops: converged, and after how many cycles.
#[derive(Clone, Copy, Debug, PartialEq, Eq, Structural)]
pub struct RunReport {
    pub converged: bool,
    pub ncycles: usize,
}

/// The convergence policy's thresholds, raw fixed-point scalars.
#[derive(Clone, Copy, Debug)]
pub struct ConvergenceCriteria {
    /// The maximum number of optimization cycles.
    pub max_cycle: usize,
    /// Largest acceptable per-atom force norm.
    pub max_force: i64,
    /// Largest acceptable per-atom displacement norm.
    pub max_disp: i64,
}

impl ConvergenceCriteria {
    /// Thresholds must sit in the fixed-point working range.
    pub open spec fn wf(self) -> bool {
        &&& 0 <= self.max_force <= WORK_LIM
        &&& 0 <= self.max_disp <= WORK_LIM
    }
}

impl Default for ConvergenceCriteria {
    /// Thresholds of 0.1 force units and 0.05 displacement units over
    /// at most 100 cycles.
    fn default() -> (r: Self)
        ensures
            r.wf(),
            r.max_cycle == 100,
            r.max_force == 100_000,
            r.max_disp == 50_000,
    {
        ConvergenceCriteria { max_cycle: 100, max_force: 100_000, max_disp: 50_000 }
    }
}

/// The convergence decision as a predicate: every atom's force norm is
/// under `fmax` and every atom's displacement norm is under `dmax`.
/// Stated over squares, which is the same comparison for non-negative
/// thresholds.
pub open spec fn converged_spec(
    forces: Seq<V3>,
    displacements: Seq<V3>,
    fmax: int,
    dmax: int,
) -> bool {
    &&& forall|i: int| 0 <= i < forces.len() ==> v3_norm_sq(#[trigger] forces[i]) < fmax * fmax
    &&& forall|i: int|
        0 <= i < displacements.len() ==> v3_norm_sq(#[trigger] displacements[i]) < dmax * dmax
}

/// Pure convergence test: true exactly when the largest per-atom force
/// norm is below `fmax` and the largest per-atom displacement norm is
/// below `dmax`.
pub fn check_converged(forces: &Vec<V3>, displacements: &Vec<V3>, fmax: i64, dmax: i64) -> (r:
    bool)
    requires
        all_bounded(forces@, WORK_LIM as int),
        all_bounded(displacements@, WORK_LIM as int),
        0 <= fmax <= WORK_LIM,
        0 <= dmax <= WORK_LIM,
    ensures
        r == converged_spec(forces@, displacements@, fmax as int, dmax as int),
{
    proof {
        crate::num::lemma_mul_abs(fmax as int, fmax as int, WORK_LIM as int, WORK_LIM as int);
        crate::num::lemma_mul_abs(dmax as int, dmax as int, WORK_LIM as int, WORK_LIM as int);
    }
    let fb: i128 = (fmax as i128) * (fmax as i128);
    let db: i128 = (dmax as i128) * (dmax as i128);
    let nf: usize = forces.len();
    let mut i: usize = 0;
    while i < nf
        invariant
            0 <= i <= nf,
            nf == forces@.len(),
            all_bounded(forces@, WORK_LIM as int),
            fb == (fmax as int) * (fmax as int),
            forall|j: int| 0 <= j < i ==> v3_norm_sq(#[trigger] forces@[j]) < fb,
        decreases nf - i,
    {
        let v = forces[i];
        proof {
            assert(crate::vector::v3_bounded(forces@[i as int], WORK_LIM as int));
            crate::num::lemma_mul_abs(v.x as int, v.x as int, WORK_LIM as int, WORK_LIM as int);
            crate::num::lemma_mul_abs(v.y as int, v.y as int, WORK_LIM as int, WORK_LIM as int);
            crate::num::lemma_mul_abs(v.z as int, v.z as int, WORK_LIM as int, WORK_LIM as int);
        }
        let ss: i128 = (v.x as i128) * (v.x as i128) + (v.y as i128) * (v.y as i128) + (v.z
            as i128) * (v.z as i128);
        if ss >= fb {
            return false;
        }
        i = i + 1;
    }
    let nd: usize = displacements.len();
    let mut k: usize = 0;
    while k < nd
        invariant
            0 <= k <= nd,
            nd == displacements@.len(),
            all_bounded(displacements@, WORK_LIM as int),
            db == (dmax as int) * (dmax as int),
            forall|j: int| 0 <= j < forces@.len() ==> v3_norm_sq(#[trigger] forces@[j]) < (fmax
                as int) * (fmax as int),
            forall|j: int| 0 <= j < k ==> v3_norm_sq(#[trigger] displacements@[j]) < db,
        decreases nd - k,
    {
        let v = displacements[k];
        proof {
            assert(crate::vector::v3_bounded(displacements@[k as int], WORK_LIM as int));
            crate::num::lemma_mul_abs(v.x as int, v.x as int, WORK_LIM as int, WORK_LIM as int);
            crate::num::lemma_mul_abs(v.y as int, v.y as int, WORK_LIM as int, WORK_LIM as int);
            crate::num::lemma_mul_abs(v.z as int, v.z as int, WORK_LIM as int, WORK_LIM as int);
        }
        let ss: i128 = (v.x as i128) * (v.x as i128) + (v.y as i128) * (v.y as i128) + (v.z
            as i128) * (v.z as i128);
        if ss >= db {
            return false;
        }
        k = k + 1;
    }
    true
}

/// A sink that persists computed properties between cycles, for
/// partial-failure recovery.  Implementations live outside the
/// verified core; the loop never lets their failures escape.
pub trait CheckpointSink {
    /// Persist one set of computed properties.
    fn commit(&mut self, mp: &ModelProperties) -> (r: Result<(), Error>);
}

/// A displacement strategy driving the generic relaxation loop.
/// The crate provides two: FIRE and conjugate gradient.
pub trait Optimizer: Sized {
    /// The strategy's own state invariant.
    spec fn inv(&self) -> bool;

    /// Cartesian displacements predicted by the optimizer from the
    /// latest model properties.
    fn displacements(&mut self, mp: &ModelProperties) -> (r: Result<Vec<V3>, Error>)
        requires
            old(self).inv(),
        ensures
            final(self).inv(),
            r matches Ok(d) ==> (mp.forces matches Some(f) && d@.len() == f@.len() && all_bounded(
                d@,
                WORK_LIM as int,
            )),
    ;

    /// Determine whether the structure is optimized: every per-atom
    /// force norm under the configured force threshold and every
    /// displacement norm under the configured displacement threshold.
    /// Fails exactly when the properties carry no usable forces.
    fn converged(
        &self,
        displacements: &Vec<V3>,
        mp: &ModelProperties,
        _icycle: usize,
        criteria: &ConvergenceCriteria,
    ) -> (r: Result<bool, Error>)
        requires
            all_bounded(displacements@, WORK_LIM as int),
            criteria.wf(),
        ensures
            r matches Ok(b) ==> (mp.forces matches Some(f) && all_bounded(f@, WORK_LIM as int)
                && b == converged_spec(
                f@,
                displacements@,
                criteria.max_force as int,
                criteria.max_disp as int,
            )),
            r is Err <==> (mp.forces is None || (mp.forces matches Some(f) && !all_bounded(
                f@,
                WORK_LIM as int,
            ))),
    {
        match &mp.forces {
            Some(f) => {
                if !crate::vector::check_bounded(f, WORK_LIM) {
                    Err(Error::OutOfRange)
                } else {
                    Ok(check_converged(f, displacements, criteria.max_force, criteria.max_disp))
                }
            },
            None => Err(Error::MissingForces { image: 0 }),
        }
    }

    /// Optimize the structure `mol` against the model over at most
    /// `maxcycle` cycles.  Model failures abort the run; running out of
    /// cycles does not, and is reported in the returned report.  The
    /// loop never changes the atom count or the element ordering.
    fn run<M: ChemicalModel>(
        &mut self,
        mol: &mut Structure,
        model: &M,
        criteria: &ConvergenceCriteria,
    ) -> (r: Result<RunReport, Error>)
        requires
            old(self).inv(),
            criteria.wf(),
        ensures
            final(self).inv(),
            final(mol).atoms@.len() == old(mol).atoms@.len(),
            final(mol).elements() == old(mol).elements(),
            r matches Ok(rep) ==> (rep.ncycles <= criteria.max_cycle || (criteria.max_cycle == 0
                && rep.ncycles == 1)),
            r matches Ok(rep) ==> ((rep.converged && rep.ncycles == 0) ==> final(mol).positions_spec() == old(mol).positions_spec()),
    {
        let mut icycle: usize = 0;
        loop
            invariant
                self.inv(),
                mol.atoms@.len() == old(mol).atoms@.len(),
                mol.elements() == old(mol).elements(),
                icycle == 0 ==> mol.atoms@ == old(mol).atoms@,
                criteria.wf(),
                criteria.max_cycle > 0 ==> icycle < criteria.max_cycle,
                criteria.max_cycle == 0 ==> icycle == 0,
            decreases criteria.max_cycle - icycle,
        {
            // evaluate energy, forces, ... by applying the model
            let mp = match model.compute(mol) {
                Ok(mp) => mp,
                Err(e) => {
                    return Err(e);
                },
            };
            // displacement vectors proposed by the strategy
            let dvs = match self.displacements(&mp) {
                Ok(d) => d,
                Err(e) => {
                    return Err(e);
                },
            };
            match self.converged(&dvs, &mp, icycle, criteria) {
                Ok(true) => {
                    return Ok(RunReport { converged: true, ncycles: icycle });
                },
                Ok(false) => {},
                Err(e) => {
                    return Err(e);
                },
            }
            // update the positions
            if dvs.len() != mol.natoms() {
                return Err(Error::SizeMismatch);
            }
            let mut positions = mol.positions();
            if !crate::vector::check_bounded(&positions, WORK_LIM) {
                return Err(Error::OutOfRange);
            }
            crate::vector::apply_displacements(&mut positions, &dvs);
            mol.set_positions(&positions);
            icycle = icycle + 1;
            if icycle >= criteria.max_cycle {
                return Ok(RunReport { converged: false, ncycles: icycle });
            }
        }
    }

    /// Like [`Optimizer::run`], additionally handing every model
    /// evaluation to a checkpoint sink.  A checkpoint failure never
    /// interrupts the optimization.
    fn run_with_checkpoint<M: ChemicalModel, C: CheckpointSink>(
        &mut self,
        mol: &mut Structure,
        model: &M,
        criteria: &ConvergenceCriteria,
        ckpt: &mut C,
    ) -> (r: Result<RunReport, Error>)
        requires
            old(self).inv(),
            criteria.wf(),
        ensures
            final(self).inv(),
            final(mol).atoms@.len() == old(mol).atoms@.len(),
            final(mol).elements() == old(mol).elements(),
            r matches Ok(rep) ==> (rep.ncycles <= criteria.max_cycle || (criteria.max_cycle == 0
                && rep.ncycles == 1)),
            r matches Ok(rep) ==> ((rep.converged && rep.ncycles == 0) ==> final(mol).positions_spec() == old(mol).positions_spec()),
    {
        let mut icycle: usize = 0;
        loop
            invariant
                self.inv(),
                mol.atoms@.len() == old(mol).atoms@.len(),
                mol.elements() == old(mol).elements(),
                icycle == 0 ==> mol.atoms@ == old(mol).atoms@,
                criteria.wf(),
                criteria.max_cycle > 0 ==> icycle < criteria.max_cycle,
                criteria.max_cycle == 0 ==> icycle == 0,
            decreases criteria.max_cycle - icycle,
        {
            let mp = match model.compute(mol) {
                Ok(mp) => mp,
                Err(e) => {
                    return Err(e);
                },
            };
            // fire-and-continue: a failed checkpoint is ignored
            let _ = ckpt.commit(&mp);
            let dvs = match self.displacements(&mp) {
                Ok(d) => d,
                Err(e) => {
                    return Err(e);
                },
            };
            match self.converged(&dvs, &mp, icycle, criteria) {
                Ok(true) => {
                    return Ok(RunReport { converged: true, ncycles: icycle });
                },
                Ok(false) => {},
                Err(e) => {
                    return Err(e);
                },
            }
            if dvs.len() != mol.natoms() {
                return Err(Error::SizeMismatch);
            }
            let mut positions = mol.positions();
            if !crate::vector::check_bounded(&positions, WORK_LIM) {
                return Err(Error::OutOfRange);
            }
            crate::vector::apply_displacements(&mut positions, &dvs);
            mol.set_positions(&positions);
            icycle = icycle + 1;
            if icycle >= criteria.max_cycle {
                return Ok(RunReport { converged: false, ncycles: icycle });
            }
        }
    }
}

} // verus!
