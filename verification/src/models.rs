//! Structures, computed properties, and the pluggable energy/force
//! model interface.

use vstd::prelude::*;
use crate::error::Error;
use crate::vector::V3;

verus! {

/// One atom: an element identity and a fixed-point cartesian position.
#[derive(Clone, Copy, Debug, PartialEq, Eq, Structural)]
pub struct Atom {
    pub element: u32,
    pub position: V3,
}

/// An ordered collection of atoms; the unit a model evaluates and an
/// optimizer moves.
#[derive(Clone, Debug)]
pub struct Structure {
    pub atoms: Vec<Atom>,
}

impl Structure {
    /// The per-index element identities.
    pub open spec fn elements(self) -> Seq<u32> {
        self.atoms@.map_values(|a: Atom| a.element)
    }

    /// The per-index positions.
    pub open spec fn positions_spec(self) -> Seq<V3> {
        self.atoms@.map_values(|a: Atom| a.position)
    }

    pub fn new(atoms: Vec<Atom>) -> (r: Structure)
        ensures
            r.atoms@ == atoms@,
    {
        Structure { atoms }
    }

    pub fn natoms(&self) -> (n: usize)
        ensures
            n == self.atoms@.len(),
    {
        self.atoms.len()
    }

    /// An atom-for-atom copy with a fully specified view.
    pub fn duplicate(&self) -> (r: Structure)
        ensures
            r.atoms@ == self.atoms@,
    {
        let n: usize = self.atoms.len();
        let mut atoms: Vec<Atom> = Vec::new();
        let mut i: usize = 0;
        while i < n
            invariant
                0 <= i <= n,
                n == self.atoms@.len(),
                atoms@ =~= self.atoms@.take(i as int),
            decreases n - i,
        {
            atoms.push(self.atoms[i]);
            i = i + 1;
        }
        proof {
            assert(self.atoms@.take(n as int) =~= self.atoms@);
        }
        Structure { atoms }
    }

    /// A copy of every atom's position, in order.
    pub fn positions(&self) -> (r: Vec<V3>)
        ensures
            r@ == self.positions_spec(),
    {
        let n: usize = self.atoms.len();
        let mut r: Vec<V3> = Vec::new();
        let mut i: usize = 0;
        while i < n
            invariant
                0 <= i <= n,
                n == self.atoms@.len(),
                r@ =~= self.positions_spec().take(i as int),
            decreases n - i,
        {
            r.push(self.atoms[i].position);
            i = i + 1;
        }
        proof {
            assert(self.positions_spec().take(n as int) =~= self.positions_spec());
        }
        r
    }

    /// Overwrite every position, leaving element identities untouched.
    pub fn set_positions(&mut self, p: &Vec<V3>)
        requires
            p@.len() == old(self).atoms@.len(),
        ensures
            final(self).atoms@.len() == old(self).atoms@.len(),
            final(self).elements() == old(self).elements(),
            final(self).positions_spec() == p@,
    {
        let n: usize = self.atoms.len();
        let mut i: usize = 0;
        while i < n
            invariant
                0 <= i <= n,
                n == self.atoms@.len(),
                n == p@.len(),
                forall|j: int| 0 <= j < n ==> #[trigger] self.atoms@[j].element == old(
                    self,
                ).atoms@[j].element,
                forall|j: int| 0 <= j < i ==> #[trigger] self.atoms@[j].position == p@[j],
                forall|j: int| i <= j < n ==> #[trigger] self.atoms@[j].position == old(
                    self,
                ).atoms@[j].position,
            decreases n - i,
        {
            let a = Atom { element: self.atoms[i].element, position: p[i] };
            self.atoms.set(i, a);
            i = i + 1;
        }
        proof {
            assert(self.elements() =~= old(self).elements());
            assert(self.positions_spec() =~= p@);
        }
    }
}

/// What one model evaluation yields: energy and forces are raw
/// fixed-point scalars; a model may also hand back a refined structure
/// or a dipole moment.
#[derive(Clone, Debug, Default)]
pub struct ModelProperties {
    pub energy: Option<i64>,
    pub forces: Option<Vec<V3>>,
    pub dipole: Option<V3>,
    pub structure: Option<Structure>,
}

impl ModelProperties {
    /// True when the record carries neither an energy nor forces.
    pub fn is_empty(&self) -> (r: bool)
        ensures
            r == (self.energy is None && self.forces is None),
    {
        self.energy.is_none() && self.forces.is_none()
    }
}

/// An energy/force evaluator.  The engine never inspects how the
/// properties are obtained, so nothing is promised of `compute`; every
/// verified caller validates what comes back before using it.
pub trait ChemicalModel {
    /// Compute properties — energy, forces, ... — for one structure.
    fn compute(&self, mol: &Structure) -> (r: Result<ModelProperties, Error>);

    /// Compute the properties of many structures in a batch; by
    /// default, one at a time.
    fn compute_many(&self, mols: &Vec<Structure>) -> (r: Result<Vec<ModelProperties>, Error>)
        default_ensures
            r matches Ok(all) ==> all@.len() == mols@.len(),
    {
        let n: usize = mols.len();
        let mut all: Vec<ModelProperties> = Vec::new();
        let mut i: usize = 0;
        while i < n
            invariant
                0 <= i <= n,
                n == mols@.len(),
                all@.len() == i,
            decreases n - i,
        {
            match self.compute(&mols[i]) {
                Ok(mp) => {
                    all.push(mp);
                },
                Err(e) => {
                    return Err(e);
                },
            }
            i = i + 1;
        }
        Ok(all)
    }
}

/// A model driven by an external run script; only its configuration
/// lives here, running the script is a caller's affair.
#[derive(Clone, Debug)]
pub struct DftbModel {
    pub runfile: String,
}

impl Default for DftbModel {
    fn default() -> (r: Self)
        ensures
            r.runfile@ == "./submit.sh"@,
    {
        DftbModel { runfile: "./submit.sh".to_string() }
    }
}

} // verus!
