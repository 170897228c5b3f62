//! The Nudged Elastic Band (NEB) method for minimum energy paths and
//! saddle points: a chain of images between two fixed endpoints,
//! per-image tangents, spring/perpendicular force decomposition, an
//! optional climbing image, and a FIRE-driven relaxation of the chain.

use vstd::prelude::*;
use crate::error::Error;
use crate::models::{ChemicalModel, Structure};
use crate::num::{abs_i, div_tz, div_trunc, lemma_div_tz_le, lemma_mul_abs, SCALE, WORK_LIM};
use crate::vector::{all_bounded, copy_vec, dot, dot_seq, lemma_all_bounded_widen,
    lemma_component_le_norm, lemma_dot_seq_bound, lemma_norm_seq_bound, norm_raw, norm_seq, V3,
    DOT_LIM, N_MAX};

verus! {

/// The largest raw spring constant the engine accepts.
pub const SPRING_LIM: i64 = 0x200_0000;

/// A single image in the NEB chain: a structure plus its cached energy
/// and forces, which are invalidated whenever the positions move.
#[derive(Clone, Debug)]
pub struct Image {
    /// The structure this image holds.
    pub mol: Structure,
    /// Cached energy from the last model evaluation.
    pub energy: Option<i64>,
    /// Cached forces from the last model evaluation.
    pub forces: Option<Vec<V3>>,
}

impl Image {
    /// Construct an image from a structure, with nothing cached yet.
    pub fn new(mol: Structure) -> (r: Self)
        ensures
            r.mol.atoms@ == mol.atoms@,
            r.energy is None,
            r.forces is None,
    {
        Image { mol, energy: None, forces: None }
    }
}

/// A chain is usable when it has at least three images and every image
/// agrees with image 0 on atom count and element ordering.
pub open spec fn chain_wf(images: Seq<Image>) -> bool {
    &&& images.len() >= 3
    &&& forall|i: int|
        0 <= i < images.len() ==> ((#[trigger] images[i]).mol.atoms@.len()
            == images[0].mol.atoms@.len() && images[i].mol.elements() == images[0].mol.elements())
}

/// The Nudged Elastic Band engine.
#[derive(Clone, Debug)]
pub struct NEB {
    /// The chain of images, the two endpoints included.
    pub images: Vec<Image>,
    /// Drive the highest-energy image up the path tangent.
    pub climbing: bool,
    /// Spring constants, one per neighboring pair.
    pub spring_constants: Vec<i64>,
    /// Energy margin for recognising the climbing image.
    pub climbing_tol: i64,
}

impl Default for NEB {
    fn default() -> (r: Self)
        ensures
            r.images@.len() == 0,
            r.climbing == false,
            r.spring_constants@.len() == 0,
            r.climbing_tol == 5_000,
    {
        NEB { images: Vec::new(), climbing: false, spring_constants: Vec::new(), climbing_tol: 5_000 }
    }
}

impl NEB {
    /// Build a chain from a list of structures, with one default
    /// spring constant of 0.1 units per neighboring pair.
    pub fn new(mols: Vec<Structure>) -> (r: Self)
        requires
            mols@.len() >= 1,
        ensures
            r.images@.len() == mols@.len(),
            forall|i: int|
                0 <= i < mols@.len() ==> ((#[trigger] r.images@[i]).mol.atoms@ == mols@[i].atoms@
                    && r.images@[i].energy is None && r.images@[i].forces is None),
            r.spring_constants@.len() == mols@.len() - 1,
            forall|i: int|
                0 <= i < mols@.len() - 1 ==> #[trigger] r.spring_constants@[i] == 100_000,
            r.climbing == false,
            r.climbing_tol == 5_000,
    {
        let n: usize = mols.len();
        let mut images: Vec<Image> = Vec::new();
        let mut i: usize = 0;
        while i < n
            invariant
                0 <= i <= n,
                n == mols@.len(),
                images@.len() == i,
                forall|j: int|
                    0 <= j < i ==> ((#[trigger] images@[j]).mol.atoms@ == mols@[j].atoms@
                        && images@[j].energy is None && images@[j].forces is None),
            decreases n - i,
        {
            let mut atoms: Vec<crate::models::Atom> = Vec::new();
            let m: usize = mols[i].atoms.len();
            let mut a: usize = 0;
            while a < m
                invariant
                    0 <= a <= m,
                    0 <= i < mols@.len(),
                    m == mols@[i as int].atoms@.len(),
                    atoms@ =~= mols@[i as int].atoms@.take(a as int),
                decreases m - a,
            {
                atoms.push(mols[i].atoms[a]);
                a = a + 1;
            }
            proof {
                assert(mols@[i as int].atoms@.take(m as int) =~= mols@[i as int].atoms@);
            }
            images.push(Image::new(Structure::new(atoms)));
            i = i + 1;
        }
        let nsprings: usize = n - 1;
        let mut springs: Vec<i64> = Vec::new();
        let mut k: usize = 0;
        while k < nsprings
            invariant
                0 <= k <= nsprings,
                springs@.len() == k,
                forall|j: int| 0 <= j < k ==> #[trigger] springs@[j] == 100_000,
            decreases nsprings - k,
        {
            springs.push(100_000);
            k = k + 1;
        }
        NEB { images, climbing: false, spring_constants: springs, climbing_tol: 5_000 }
    }

    /// Sanity check of the chain: succeeds exactly when it is usable.
    pub fn check_images(&self) -> (r: Result<(), Error>)
        ensures
            r is Ok <==> chain_wf(self.images@),
            self.images@.len() < 3 ==> r == Err::<(), Error>(
                Error::TooFewImages { count: self.images@.len() as usize },
            ),
            r matches Err(e) ==> (e matches Error::TooFewImages { count } ==> count
                == self.images@.len()),
            r matches Err(e) ==> (e matches Error::AtomCountMismatch { image } ==> (1 <= image
                < self.images@.len() && self.images@[image as int].mol.atoms@.len()
                != self.images@[0].mol.atoms@.len())),
            r matches Err(e) ==> (e matches Error::ElementMismatch { image } ==> (1 <= image
                < self.images@.len() && self.images@[image as int].mol.elements()
                != self.images@[0].mol.elements())),
            r matches Err(e) ==> (e is TooFewImages || e is AtomCountMismatch
                || e is ElementMismatch),
    {
        let nimages: usize = self.images.len();
        if nimages <= 2 {
            return Err(Error::TooFewImages { count: nimages });
        }
        let natoms: usize = self.images[0].mol.natoms();
        let mut i: usize = 1;
        while i < nimages
            invariant
                1 <= i <= nimages,
                nimages == self.images@.len(),
                nimages >= 3,
                natoms == self.images@[0].mol.atoms@.len(),
                forall|j: int|
                    0 <= j < i ==> (#[trigger] self.images@[j]).mol.atoms@.len() == natoms,
            decreases nimages - i,
        {
            if self.images[i].mol.natoms() != natoms {
                return Err(Error::AtomCountMismatch { image: i });
            }
            i = i + 1;
        }
        let mut k: usize = 1;
        while k < nimages
            invariant
                1 <= k <= nimages,
                nimages == self.images@.len(),
                nimages >= 3,
                natoms == self.images@[0].mol.atoms@.len(),
                forall|j: int|
                    0 <= j < nimages ==> (#[trigger] self.images@[j]).mol.atoms@.len() == natoms,
                forall|j: int|
                    0 <= j < k ==> (#[trigger] self.images@[j]).mol.elements()
                        == self.images@[0].mol.elements(),
            decreases nimages - k,
        {
            let mut a: usize = 0;
            while a < natoms
                invariant
                    0 <= a <= natoms,
                    1 <= k < nimages,
                    nimages == self.images@.len(),
                    nimages >= 3,
                    natoms == self.images@[0].mol.atoms@.len(),
                    self.images@[k as int].mol.atoms@.len() == natoms,
                    forall|b: int|
                        0 <= b < a ==> #[trigger] self.images@[k as int].mol.elements()[b]
                            == self.images@[0].mol.elements()[b],
                decreases natoms - a,
            {
                if self.images[k].mol.atoms[a].element != self.images[0].mol.atoms[a].element {
                    proof {
                        assert(self.images@[k as int].mol.elements()[a as int] != self.images@[0].mol.elements()[a as int]);
                    }
                    return Err(Error::ElementMismatch { image: k });
                }
                a = a + 1;
            }
            proof {
                assert(self.images@[k as int].mol.elements() =~= self.images@[0].mol.elements());
            }
            k = k + 1;
        }
        Ok(())
    }
}

/// Displacement vectors `R_next - R_this`, one per atom.
pub open spec fn displacement_matches(d: Seq<V3>, this: Seq<V3>, next: Seq<V3>) -> bool {
    &&& d.len() == this.len()
    &&& next.len() == this.len()
    &&& forall|a: int|
        0 <= a < this.len() ==> ((#[trigger] d[a]).x == next[a].x - this[a].x && d[a].y == next[a].y
            - this[a].y && d[a].z == next[a].z - this[a].z)
}

/// Return displacement vectors `positions_next - positions_this`.
fn get_displacements_between(positions_next: &Vec<V3>, positions_this: &Vec<V3>) -> (r: Vec<V3>)
    requires
        positions_this@.len() == positions_next@.len(),
        all_bounded(positions_this@, WORK_LIM as int),
        all_bounded(positions_next@, WORK_LIM as int),
    ensures
        displacement_matches(r@, positions_this@, positions_next@),
        all_bounded(r@, 2 * WORK_LIM as int),
{
    let n: usize = positions_this.len();
    let mut r: Vec<V3> = Vec::new();
    let mut i: usize = 0;
    while i < n
        invariant
            0 <= i <= n,
            n == positions_this@.len(),
            n == positions_next@.len(),
            all_bounded(positions_this@, WORK_LIM as int),
            all_bounded(positions_next@, WORK_LIM as int),
            r@.len() == i,
            forall|a: int|
                0 <= a < i ==> ((#[trigger] r@[a]).x == positions_next@[a].x - positions_this@[a].x
                    && r@[a].y == positions_next@[a].y - positions_this@[a].y && r@[a].z
                    == positions_next@[a].z - positions_this@[a].z),
            forall|a: int|
                0 <= a < i ==> crate::vector::v3_bounded(#[trigger] r@[a], 2 * WORK_LIM as int),
        decreases n - i,
    {
        proof {
            assert(crate::vector::v3_bounded(positions_this@[i as int], WORK_LIM as int));
            assert(crate::vector::v3_bounded(positions_next@[i as int], WORK_LIM as int));
        }
        let t = positions_this[i];
        let u = positions_next[i];
        r.push(V3 { x: u.x - t.x, y: u.y - t.y, z: u.z - t.z });
        i = i + 1;
    }
    r
}

/// Displacements between every pair of neighboring images:
/// `displ[i] = R_(i+1) - R_i`.
fn get_neighboring_images_displacements(images: &Vec<Image>) -> (r: Result<Vec<Vec<V3>>, Error>)
    requires
        chain_wf(images@),
    ensures
        r is Ok <==> (forall|i: int|
            0 <= i < images@.len() ==> all_bounded(
                (#[trigger] images@[i]).mol.positions_spec(),
                WORK_LIM as int,
            )),
        r matches Ok(ds) ==> (ds@.len() == images@.len() - 1 && (forall|i: int|
            0 <= i < ds@.len() ==> displacement_matches(
                (#[trigger] ds@[i])@,
                images@[i].mol.positions_spec(),
                images@[i + 1].mol.positions_spec(),
            ) && all_bounded(ds@[i]@, 2 * WORK_LIM as int))),
        r matches Err(e) ==> e == Error::OutOfRange,
{
    let nmols: usize = images.len();
    let mut displs: Vec<Vec<V3>> = Vec::new();
    let mut i: usize = 0;
    while i < nmols - 1
        invariant
            0 <= i <= nmols - 1,
            nmols == images@.len(),
            nmols >= 3,
            chain_wf(images@),
            displs@.len() == i,
            forall|j: int|
                0 <= j < i ==> (displacement_matches(
                    (#[trigger] displs@[j])@,
                    images@[j].mol.positions_spec(),
                    images@[j + 1].mol.positions_spec(),
                ) && all_bounded(displs@[j]@, 2 * WORK_LIM as int)),
            forall|j: int|
                0 <= j < i ==> all_bounded(
                    (#[trigger] images@[j]).mol.positions_spec(),
                    WORK_LIM as int,
                ),
            i > 0 ==> all_bounded(images@[i as int].mol.positions_spec(), WORK_LIM as int),
        decreases nmols - 1 - i,
    {
        let positions_this = images[i].mol.positions();
        let positions_next = images[i + 1].mol.positions();
        if !crate::vector::check_bounded(&positions_this, WORK_LIM) {
            return Err(Error::OutOfRange);
        }
        if !crate::vector::check_bounded(&positions_next, WORK_LIM) {
            return Err(Error::OutOfRange);
        }
        proof {
            assert(images@[i as int].mol.atoms@.len() == images@[0].mol.atoms@.len());
            assert(images@[i + 1].mol.atoms@.len() == images@[0].mol.atoms@.len());
        }
        let displ = get_displacements_between(&positions_next, &positions_this);
        displs.push(displ);
        i = i + 1;
    }
    proof {
        assert forall|j: int| 0 <= j < images@.len() implies all_bounded(
            (#[trigger] images@[j]).mol.positions_spec(),
            WORK_LIM as int,
        ) by {
            if j < images@.len() - 1 {
                assert(all_bounded(images@[j].mol.positions_spec(), WORK_LIM as int));
            }
        }
    }
    Ok(displs)
}

/// `t` is `w` normalized: each component is `w * scale / |w|` with the
/// global norm of `w`.
pub open spec fn normalized_rel(w: Seq<V3>, t: Seq<V3>) -> bool {
    &&& t.len() == w.len()
    &&& forall|a: int|
        0 <= a < w.len() ==> ((#[trigger] t[a]).x == div_tz(w[a].x * SCALE, norm_seq(w)) && t[a].y
            == div_tz(w[a].y * SCALE, norm_seq(w)) && t[a].z == div_tz(w[a].z * SCALE, norm_seq(w)))
}

/// Normalize a displacement array; the caller supplies its norm.
fn normalize_displacements(w: &Vec<V3>, nrm: i64) -> (t: Vec<V3>)
    requires
        w@.len() <= N_MAX,
        all_bounded(w@, DOT_LIM as int),
        nrm == norm_seq(w@),
        nrm > 0,
    ensures
        normalized_rel(w@, t@),
        t@.len() == w@.len(),
        all_bounded(t@, SCALE as int),
{
    let n: usize = w.len();
    let mut t: Vec<V3> = Vec::new();
    let mut a: usize = 0;
    while a < n
        invariant
            0 <= a <= n,
            n == w@.len(),
            n <= N_MAX,
            all_bounded(w@, DOT_LIM as int),
            nrm == norm_seq(w@),
            nrm > 0,
            t@.len() == a,
            forall|b: int|
                0 <= b < a ==> ((#[trigger] t@[b]).x == div_tz(w@[b].x * SCALE, nrm as int)
                    && t@[b].y == div_tz(w@[b].y * SCALE, nrm as int) && t@[b].z == div_tz(
                    w@[b].z * SCALE,
                    nrm as int,
                )),
            forall|b: int|
                0 <= b < a ==> crate::vector::v3_bounded(#[trigger] t@[b], SCALE as int),
        decreases n - a,
    {
        let v = w[a];
        proof {
            assert(crate::vector::v3_bounded(w@[a as int], DOT_LIM as int));
            lemma_component_le_norm(w@, a as int);
            lemma_mul_abs(v.x as int, SCALE as int, nrm as int, SCALE as int);
            lemma_mul_abs(v.y as int, SCALE as int, nrm as int, SCALE as int);
            lemma_mul_abs(v.z as int, SCALE as int, nrm as int, SCALE as int);
            assert((nrm as int) * (SCALE as int) == (SCALE as int) * (nrm as int))
                by (nonlinear_arith) {}
            lemma_div_tz_le(v.x * SCALE, nrm as int, SCALE as int);
            lemma_div_tz_le(v.y * SCALE, nrm as int, SCALE as int);
            lemma_div_tz_le(v.z * SCALE, nrm as int, SCALE as int);
        }
        let tx: i64 = div_trunc((v.x as i128) * (SCALE as i128), nrm as i128) as i64;
        let ty: i64 = div_trunc((v.y as i128) * (SCALE as i128), nrm as i128) as i64;
        let tz: i64 = div_trunc((v.z as i128) * (SCALE as i128), nrm as i128) as i64;
        t.push(V3 { x: tx, y: ty, z: tz });
        a = a + 1;
    }
    t
}

/// The classical tangent estimate: the unweighted average of the two
/// normalized neighboring displacements.
pub open spec fn tangent_orig_matches(t: Seq<V3>, dp: Seq<V3>, dn: Seq<V3>) -> bool {
    &&& t.len() == dp.len()
    &&& dn.len() == dp.len()
    &&& forall|a: int|
        0 <= a < dp.len() ==> ((#[trigger] t[a]).x == div_tz(
            div_tz(dn[a].x * SCALE, norm_seq(dn)) + div_tz(dp[a].x * SCALE, norm_seq(dp)),
            2,
        ) && t[a].y == div_tz(
            div_tz(dn[a].y * SCALE, norm_seq(dn)) + div_tz(dp[a].y * SCALE, norm_seq(dp)),
            2,
        ) && t[a].z == div_tz(
            div_tz(dn[a].z * SCALE, norm_seq(dn)) + div_tz(dp[a].z * SCALE, norm_seq(dp)),
            2,
        ))
}

/// Classical tangent estimate for every intermediate image: the
/// unweighted average of the normalized displacements on either side.
/// Fails exactly when two neighboring images coincide (a zero
/// displacement cannot be normalized).
pub fn tangent_vectors_original(displacements: &Vec<Vec<V3>>) -> (r: Result<Vec<Vec<V3>>, Error>)
    requires
        displacements@.len() >= 2,
        forall|j: int|
            0 <= j < displacements@.len() ==> ((#[trigger] displacements@[j])@.len()
                == displacements@[0]@.len() && all_bounded(
                displacements@[j]@,
                2 * WORK_LIM as int,
            )),
        displacements@[0]@.len() <= N_MAX,
    ensures
        r is Ok <==> (forall|j: int|
            0 <= j < displacements@.len() ==> norm_seq((#[trigger] displacements@[j])@) != 0),
        r matches Err(e) ==> (e matches Error::DegenerateTangent { image } && 0 <= image
            < displacements@.len() && norm_seq(displacements@[image as int]@) == 0),
        r matches Ok(ts) ==> (ts@.len() == displacements@.len() - 1 && (forall|i: int|
            0 <= i < ts@.len() ==> tangent_orig_matches(
                (#[trigger] ts@[i])@,
                displacements@[i]@,
                displacements@[i + 1]@,
            ) && all_bounded(ts@[i]@, SCALE as int))),
{
    let nd: usize = displacements.len();
    // precompute the norms, rejecting any zero displacement
    let mut norms: Vec<i64> = Vec::new();
    let mut j: usize = 0;
    while j < nd
        invariant
            0 <= j <= nd,
            nd == displacements@.len(),
            forall|p: int|
                0 <= p < nd ==> ((#[trigger] displacements@[p])@.len() == displacements@[0]@.len()
                    && all_bounded(displacements@[p]@, 2 * WORK_LIM as int)),
            displacements@[0]@.len() <= N_MAX,
            norms@.len() == j,
            forall|p: int|
                0 <= p < j ==> (#[trigger] norms@[p] == norm_seq(displacements@[p]@) && norms@[p]
                    > 0),
        decreases nd - j,
    {
        proof {
            lemma_all_bounded_widen(displacements@[j as int]@, 2 * WORK_LIM as int, DOT_LIM as int);
        }
        let nrm: i64 = norm_raw(&displacements[j]);
        if nrm == 0 {
            return Err(Error::DegenerateTangent { image: j });
        }
        norms.push(nrm);
        j = j + 1;
    }
    let mut tangents: Vec<Vec<V3>> = Vec::new();
    let mut i: usize = 0;
    while i < nd - 1
        invariant
            0 <= i <= nd - 1,
            nd == displacements@.len(),
            nd >= 2,
            forall|p: int|
                0 <= p < nd ==> ((#[trigger] displacements@[p])@.len() == displacements@[0]@.len()
                    && all_bounded(displacements@[p]@, 2 * WORK_LIM as int)),
            displacements@[0]@.len() <= N_MAX,
            norms@.len() == nd,
            forall|p: int|
                0 <= p < nd ==> (#[trigger] norms@[p] == norm_seq(displacements@[p]@) && norms@[p]
                    > 0),
            tangents@.len() == i,
            forall|p: int|
                0 <= p < i ==> (tangent_orig_matches(
                    (#[trigger] tangents@[p])@,
                    displacements@[p]@,
                    displacements@[p + 1]@,
                ) && all_bounded(tangents@[p]@, SCALE as int)),
        decreases nd - 1 - i,
    {
        proof {
            lemma_all_bounded_widen(displacements@[i as int]@, 2 * WORK_LIM as int, DOT_LIM as int);
            lemma_all_bounded_widen(
                displacements@[i + 1 as int]@,
                2 * WORK_LIM as int,
                DOT_LIM as int,
            );
        }
        let tn = normalize_displacements(&displacements[i + 1], norms[i + 1]);
        let tp = normalize_displacements(&displacements[i], norms[i]);
        let m: usize = tn.len();
        let mut t: Vec<V3> = Vec::new();
        let mut a: usize = 0;
        while a < m
            invariant
                0 <= a <= m,
                m == tn@.len(),
                m == tp@.len(),
                all_bounded(tn@, SCALE as int),
                all_bounded(tp@, SCALE as int),
                t@.len() == a,
                forall|b: int|
                    0 <= b < a ==> ((#[trigger] t@[b]).x == div_tz(tn@[b].x + tp@[b].x, 2)
                        && t@[b].y == div_tz(tn@[b].y + tp@[b].y, 2) && t@[b].z == div_tz(
                        tn@[b].z + tp@[b].z,
                        2,
                    )),
                forall|b: int|
                    0 <= b < a ==> crate::vector::v3_bounded(#[trigger] t@[b], SCALE as int),
            decreases m - a,
        {
            proof {
                assert(crate::vector::v3_bounded(tn@[a as int], SCALE as int));
                assert(crate::vector::v3_bounded(tp@[a as int], SCALE as int));
                lemma_div_tz_le((tn@[a as int].x + tp@[a as int].x) as int, 2, SCALE as int);
                lemma_div_tz_le((tn@[a as int].y + tp@[a as int].y) as int, 2, SCALE as int);
                lemma_div_tz_le((tn@[a as int].z + tp@[a as int].z) as int, 2, SCALE as int);
            }
            let vn = tn[a];
            let vp = tp[a];
            let hx: i64 = div_trunc((vn.x as i128) + (vp.x as i128), 2) as i64;
            let hy: i64 = div_trunc((vn.y as i128) + (vp.y as i128), 2) as i64;
            let hz: i64 = div_trunc((vn.z as i128) + (vp.z as i128), 2) as i64;
            t.push(V3 { x: hx, y: hy, z: hz });
            a = a + 1;
        }
        tangents.push(t);
        i = i + 1;
    }
    proof {
        assert forall|j2: int| 0 <= j2 < displacements@.len() implies norm_seq(
            (#[trigger] displacements@[j2])@,
        ) != 0 by {
            assert(norms@[j2] == norm_seq(displacements@[j2]@) && norms@[j2] > 0);
        }
    }
    Ok(tangents)
}

/// The energy-weighted tangent's pair of weights `(w_prev, w_next)`,
/// each a fraction of one in raw units.  A monotone energy triplet
/// puts the whole weight on one side; otherwise the side toward the
/// higher neighboring energy gets the larger energy difference.
pub open spec fn tangent_weights(eprev: int, ethis: int, enext: int) -> (int, int) {
    if enext > ethis && ethis > eprev {
        (0, SCALE as int)
    } else if enext < ethis && ethis < eprev {
        (SCALE as int, 0)
    } else {
        let d1 = abs_i(enext - ethis);
        let d2 = abs_i(ethis - eprev);
        let dmax = if d1 > d2 {
            d1
        } else {
            d2
        };
        let dmin = if d1 > d2 {
            d2
        } else {
            d1
        };
        let den = d1 + d2;
        if den == 0 {
            (0, 0)
        } else if enext > eprev {
            (div_tz(dmin * SCALE, den), div_tz(dmax * SCALE, den))
        } else {
            (div_tz(dmax * SCALE, den), div_tz(dmin * SCALE, den))
        }
    }
}

/// The weighted combination of the two neighboring displacements that
/// the improved tangent normalizes.
pub open spec fn combined_seq(dp: Seq<V3>, dn: Seq<V3>, wp: int, wn: int) -> Seq<V3> {
    Seq::new(
        dp.len(),
        |a: int|
            (V3 {
                x: (div_tz(wn * dn[a].x, SCALE as int) + div_tz(wp * dp[a].x, SCALE as int)) as i64,
                y: (div_tz(wn * dn[a].y, SCALE as int) + div_tz(wp * dp[a].y, SCALE as int)) as i64,
                z: (div_tz(wn * dn[a].z, SCALE as int) + div_tz(wp * dp[a].z, SCALE as int)) as i64,
            }),
    )
}

/// The weighted combination at intermediate image `i + 1` of a chain
/// with displacement pairs `ds` and energies `e`.
pub open spec fn improved_combined(ds: Seq<Vec<V3>>, e: Seq<i64>, i: int) -> Seq<V3> {
    let w = tangent_weights(e[i] as int, e[i + 1] as int, e[i + 2] as int);
    combined_seq(ds[i]@, ds[i + 1]@, w.0, w.1)
}

/// The energy-weighted ("improved") tangent estimate for every
/// intermediate image.  Fails exactly when some image's weighted
/// displacement is too short to normalize (raw norm at most 1000).
#[verifier::rlimit(60)]
pub fn tangent_vectors_improved(displacements: &Vec<Vec<V3>>, energies: &Vec<i64>) -> (r: Result<
    Vec<Vec<V3>>,
    Error,
>)
    requires
        energies@.len() >= 3,
        displacements@.len() == energies@.len() - 1,
        forall|j: int|
            0 <= j < displacements@.len() ==> ((#[trigger] displacements@[j])@.len()
                == displacements@[0]@.len() && all_bounded(
                displacements@[j]@,
                2 * WORK_LIM as int,
            )),
        displacements@[0]@.len() <= N_MAX,
        forall|j: int| 0 <= j < energies@.len() ==> abs_i(#[trigger] energies@[j] as int)
            <= WORK_LIM,
    ensures
        r is Ok <==> (forall|i: int|
            0 <= i < energies@.len() - 2 ==> norm_seq(
                #[trigger] improved_combined(displacements@, energies@, i),
            ) > 1000),
        r matches Err(e) ==> (e matches Error::DegenerateTangent { image } && 1 <= image
            <= energies@.len() - 2 && norm_seq(
            improved_combined(displacements@, energies@, image - 1),
        ) <= 1000),
        r matches Ok(ts) ==> (ts@.len() == energies@.len() - 2 && (forall|i: int|
            0 <= i < ts@.len() ==> normalized_rel(
                #[trigger] improved_combined(displacements@, energies@, i),
                ts@[i]@,
            ) && all_bounded(ts@[i]@, SCALE as int) && ts@[i]@.len() == displacements@[0]@.len())),
{
    let nmols: usize = energies.len();
    let natoms: usize = displacements[0].len();
    let mut tangents: Vec<Vec<V3>> = Vec::new();
    let mut i: usize = 0;
    while i < nmols - 2
        invariant
            0 <= i <= nmols - 2,
            nmols == energies@.len(),
            nmols >= 3,
            displacements@.len() == nmols - 1,
            natoms == displacements@[0]@.len(),
            natoms <= N_MAX,
            forall|j: int|
                0 <= j < displacements@.len() ==> ((#[trigger] displacements@[j])@.len() == natoms
                    && all_bounded(displacements@[j]@, 2 * WORK_LIM as int)),
            forall|j: int| 0 <= j < nmols ==> abs_i(#[trigger] energies@[j] as int) <= WORK_LIM,
            tangents@.len() == i,
            forall|p: int|
                0 <= p < i ==> (normalized_rel(
                    #[trigger] improved_combined(displacements@, energies@, p),
                    tangents@[p]@,
                ) && all_bounded(tangents@[p]@, SCALE as int) && tangents@[p]@.len() == natoms
                    && norm_seq(improved_combined(displacements@, energies@, p)) > 1000),
        decreases nmols - 2 - i,
    {
        let eprev: i64 = energies[i];
        let ethis: i64 = energies[i + 1];
        let enext: i64 = energies[i + 2];
        let (wp, wn): (i64, i64) = if enext > ethis && ethis > eprev {
            (0, SCALE)
        } else if enext < ethis && ethis < eprev {
            (SCALE, 0)
        } else {
            let d1: i64 = if enext >= ethis {
                enext - ethis
            } else {
                ethis - enext
            };
            let d2: i64 = if ethis >= eprev {
                ethis - eprev
            } else {
                eprev - ethis
            };
            let dmax: i64 = if d1 > d2 {
                d1
            } else {
                d2
            };
            let dmin: i64 = if d1 > d2 {
                d2
            } else {
                d1
            };
            let den: i64 = d1 + d2;
            if den == 0 {
                (0, 0)
            } else {
                proof {
                    lemma_mul_abs(dmax as int, SCALE as int, den as int, SCALE as int);
                    lemma_mul_abs(dmin as int, SCALE as int, den as int, SCALE as int);
                    assert((den as int) * (SCALE as int) == (SCALE as int) * (den as int))
                        by (nonlinear_arith) {}
                    lemma_div_tz_le(dmax * SCALE, den as int, SCALE as int);
                    lemma_div_tz_le(dmin * SCALE, den as int, SCALE as int);
                }
                let wmax: i64 = div_trunc((dmax as i128) * (SCALE as i128), den as i128) as i64;
                let wmin: i64 = div_trunc((dmin as i128) * (SCALE as i128), den as i128) as i64;
                if enext > eprev {
                    (wmin, wmax)
                } else {
                    (wmax, wmin)
                }
            }
        };
        proof {
            assert((wp as int, wn as int) == tangent_weights(
                eprev as int,
                ethis as int,
                enext as int,
            ));
            assert(0 <= wp <= SCALE && 0 <= wn <= SCALE);
        }
        // the weighted combination of the two neighboring displacements
        let dpv: &Vec<V3> = &displacements[i];
        let dnv: &Vec<V3> = &displacements[i + 1];
        let ghost comb: Seq<V3> = improved_combined(displacements@, energies@, i as int);
        let mut w: Vec<V3> = Vec::new();
        let mut a: usize = 0;
        while a < natoms
            invariant
                0 <= a <= natoms,
                dpv@.len() == natoms,
                dnv@.len() == natoms,
                all_bounded(dpv@, 2 * WORK_LIM as int),
                all_bounded(dnv@, 2 * WORK_LIM as int),
                0 <= wp <= SCALE,
                0 <= wn <= SCALE,
                comb == combined_seq(dpv@, dnv@, wp as int, wn as int),
                w@.len() == a,
                forall|b: int| 0 <= b < a ==> #[trigger] w@[b] == comb[b],
                forall|b: int|
                    0 <= b < a ==> crate::vector::v3_bounded(#[trigger] w@[b], 4 * WORK_LIM as int),
            decreases natoms - a,
        {
            let vp = dpv[a];
            let vn = dnv[a];
            proof {
                assert(crate::vector::v3_bounded(dpv@[a as int], 2 * WORK_LIM as int));
                assert(crate::vector::v3_bounded(dnv@[a as int], 2 * WORK_LIM as int));
                lemma_mul_abs(wn as int, vn.x as int, SCALE as int, 2 * WORK_LIM as int);
                lemma_mul_abs(wn as int, vn.y as int, SCALE as int, 2 * WORK_LIM as int);
                lemma_mul_abs(wn as int, vn.z as int, SCALE as int, 2 * WORK_LIM as int);
                lemma_mul_abs(wp as int, vp.x as int, SCALE as int, 2 * WORK_LIM as int);
                lemma_mul_abs(wp as int, vp.y as int, SCALE as int, 2 * WORK_LIM as int);
                lemma_mul_abs(wp as int, vp.z as int, SCALE as int, 2 * WORK_LIM as int);
                lemma_div_tz_le(wn * vn.x, SCALE as int, 2 * WORK_LIM as int);
                lemma_div_tz_le(wn * vn.y, SCALE as int, 2 * WORK_LIM as int);
                lemma_div_tz_le(wn * vn.z, SCALE as int, 2 * WORK_LIM as int);
                lemma_div_tz_le(wp * vp.x, SCALE as int, 2 * WORK_LIM as int);
                lemma_div_tz_le(wp * vp.y, SCALE as int, 2 * WORK_LIM as int);
                lemma_div_tz_le(wp * vp.z, SCALE as int, 2 * WORK_LIM as int);
            }
            let wx: i64 = (div_trunc((wn as i128) * (vn.x as i128), SCALE as i128) + div_trunc(
                (wp as i128) * (vp.x as i128),
                SCALE as i128,
            )) as i64;
            let wy: i64 = (div_trunc((wn as i128) * (vn.y as i128), SCALE as i128) + div_trunc(
                (wp as i128) * (vp.y as i128),
                SCALE as i128,
            )) as i64;
            let wz: i64 = (div_trunc((wn as i128) * (vn.z as i128), SCALE as i128) + div_trunc(
                (wp as i128) * (vp.z as i128),
                SCALE as i128,
            )) as i64;
            w.push(V3 { x: wx, y: wy, z: wz });
            proof {
                assert(w@[a as int] == comb[a as int]);
            }
            a = a + 1;
        }
        proof {
            assert(w@ =~= comb);
            lemma_all_bounded_widen(w@, 4 * WORK_LIM as int, DOT_LIM as int);
        }
        let nrm: i64 = norm_raw(&w);
        if nrm <= 1000 {
            return Err(Error::DegenerateTangent { image: i + 1 });
        }
        let t = normalize_displacements(&w, nrm);
        proof {
            assert(comb == improved_combined(displacements@, energies@, i as int));
            assert(normalized_rel(improved_combined(displacements@, energies@, i as int), t@));
            assert(norm_seq(improved_combined(displacements@, energies@, i as int)) > 1000);
        }
        tangents.push(t);
        i = i + 1;
    }
    Ok(tangents)
}

/// Law: across a monotonically increasing energy triplet the improved
/// tangent weights put everything on the next-side displacement, so
/// the combination to be normalized is exactly that displacement; a
/// monotonically decreasing triplet symmetrically selects the
/// previous-side displacement.
pub proof fn lemma_monotone_tangent_combination(
    dp: Seq<V3>,
    dn: Seq<V3>,
    eprev: int,
    ethis: int,
    enext: int,
)
    requires
        dp.len() == dn.len(),
        all_bounded(dp, 2 * WORK_LIM as int),
        all_bounded(dn, 2 * WORK_LIM as int),
    ensures
        eprev < ethis < enext ==> combined_seq(
            dp,
            dn,
            tangent_weights(eprev, ethis, enext).0,
            tangent_weights(eprev, ethis, enext).1,
        ) == dn,
        eprev > ethis > enext ==> combined_seq(
            dp,
            dn,
            tangent_weights(eprev, ethis, enext).0,
            tangent_weights(eprev, ethis, enext).1,
        ) == dp,
{
    if eprev < ethis && ethis < enext {
        let c = combined_seq(dp, dn, 0, SCALE as int);
        assert forall|a: int| 0 <= a < dn.len() implies #[trigger] c[a] == dn[a] by {
            crate::num::lemma_div_tz_cancel(dn[a].x as int, SCALE as int);
            crate::num::lemma_div_tz_cancel(dn[a].y as int, SCALE as int);
            crate::num::lemma_div_tz_cancel(dn[a].z as int, SCALE as int);
            assert(0 * dp[a].x == 0 && 0 * dp[a].y == 0 && 0 * dp[a].z == 0) by (nonlinear_arith) {}
            assert(crate::vector::v3_bounded(dn[a], 2 * WORK_LIM as int));
        }
        assert(c =~= dn);
    }
    if eprev > ethis && ethis > enext {
        let c = combined_seq(dp, dn, SCALE as int, 0);
        assert forall|a: int| 0 <= a < dp.len() implies #[trigger] c[a] == dp[a] by {
            crate::num::lemma_div_tz_cancel(dp[a].x as int, SCALE as int);
            crate::num::lemma_div_tz_cancel(dp[a].y as int, SCALE as int);
            crate::num::lemma_div_tz_cancel(dp[a].z as int, SCALE as int);
            assert(0 * dn[a].x == 0 && 0 * dn[a].y == 0 && 0 * dn[a].z == 0) by (nonlinear_arith) {}
            assert(crate::vector::v3_bounded(dp[a], 2 * WORK_LIM as int));
        }
        assert(c =~= dp);
    }
}

/// Bound on a spring-force component.
pub const SPRINGF_LIM: i64 = 0x800_0000_0000_0000;

/// Bound on a perpendicular-force component.
pub const PERP_LIM: i64 = 0x6000_0200_0000_0000;

/// The signed spring coefficient at result slot `p`:
/// `|D_next| * k_next - |D_prev| * k_prev` in raw units.
pub open spec fn spring_coeff(ds: Seq<Vec<V3>>, ks: Seq<i64>, p: int) -> int {
    div_tz(norm_seq(ds[p + 1]@) * ks[p + 1], SCALE as int) - div_tz(
        norm_seq(ds[p]@) * ks[p],
        SCALE as int,
    )
}

/// The parallel spring force of every intermediate image: the spring
/// coefficient times the image's tangent.
pub open spec fn spring_rel(r: Seq<Vec<V3>>, ds: Seq<Vec<V3>>, ks: Seq<i64>, ts: Seq<Vec<V3>>) -> bool {
    &&& r.len() == ts.len()
    &&& forall|p: int, a: int|
        0 <= p < ts.len() && 0 <= a < ts[p]@.len() ==> ((#[trigger] r[p]@[a]).x == div_tz(
            spring_coeff(ds, ks, p) * ts[p]@[a].x,
            SCALE as int,
        ) && r[p]@[a].y == div_tz(spring_coeff(ds, ks, p) * ts[p]@[a].y, SCALE as int) && r[p]@[a].z
            == div_tz(spring_coeff(ds, ks, p) * ts[p]@[a].z, SCALE as int))
}

/// Parallel component of the spring forces for all intermediate
/// images.
pub fn spring_forces_parallel(
    displacements: &Vec<Vec<V3>>,
    spring_constants: &Vec<i64>,
    tangents: &Vec<Vec<V3>>,
) -> (r: Vec<Vec<V3>>)
    requires
        displacements@.len() == tangents@.len() + 1,
        spring_constants@.len() == displacements@.len(),
        forall|j: int|
            0 <= j < displacements@.len() ==> ((#[trigger] displacements@[j])@.len() <= N_MAX
                && all_bounded(displacements@[j]@, 2 * WORK_LIM as int)),
        forall|j: int|
            0 <= j < tangents@.len() ==> all_bounded((#[trigger] tangents@[j])@, SCALE as int),
        forall|j: int|
            0 <= j < spring_constants@.len() ==> abs_i(#[trigger] spring_constants@[j] as int)
                <= SPRING_LIM,
    ensures
        spring_rel(r@, displacements@, spring_constants@, tangents@),
        r@.len() == tangents@.len(),
        forall|p: int|
            0 <= p < r@.len() ==> ((#[trigger] r@[p])@.len() == tangents@[p]@.len() && all_bounded(
                r@[p]@,
                SPRINGF_LIM as int,
            )),
{
    let nt: usize = tangents.len();
    let mut forces: Vec<Vec<V3>> = Vec::new();
    let mut p: usize = 0;
    while p < nt
        invariant
            0 <= p <= nt,
            nt == tangents@.len(),
            displacements@.len() == nt + 1,
            spring_constants@.len() == nt + 1,
            forall|j: int|
                0 <= j < displacements@.len() ==> ((#[trigger] displacements@[j])@.len() <= N_MAX
                    && all_bounded(displacements@[j]@, 2 * WORK_LIM as int)),
            forall|j: int|
                0 <= j < tangents@.len() ==> all_bounded((#[trigger] tangents@[j])@, SCALE as int),
            forall|j: int|
                0 <= j < spring_constants@.len() ==> abs_i(#[trigger] spring_constants@[j] as int)
                    <= SPRING_LIM,
            forces@.len() == p,
            forall|q: int, a: int|
                0 <= q < p && 0 <= a < tangents@[q]@.len() ==> ((#[trigger] forces@[q]@[a]).x
                    == div_tz(
                    spring_coeff(displacements@, spring_constants@, q) * tangents@[q]@[a].x,
                    SCALE as int,
                ) && forces@[q]@[a].y == div_tz(
                    spring_coeff(displacements@, spring_constants@, q) * tangents@[q]@[a].y,
                    SCALE as int,
                ) && forces@[q]@[a].z == div_tz(
                    spring_coeff(displacements@, spring_constants@, q) * tangents@[q]@[a].z,
                    SCALE as int,
                )),
            forall|q: int|
                0 <= q < p ==> ((#[trigger] forces@[q])@.len() == tangents@[q]@.len()
                    && all_bounded(forces@[q]@, SPRINGF_LIM as int)),
        decreases nt - p,
    {
        proof {
            lemma_all_bounded_widen(
                displacements@[p as int]@,
                2 * WORK_LIM as int,
                DOT_LIM as int,
            );
            lemma_all_bounded_widen(
                displacements@[p + 1 as int]@,
                2 * WORK_LIM as int,
                DOT_LIM as int,
            );
            assert(3 * (N_MAX as int) * (2 * WORK_LIM as int) * (2 * WORK_LIM as int)
                < 0x10_0000_0000_0000 * 0x10_0000_0000_0000) by (nonlinear_arith) {}
            lemma_norm_seq_bound(
                displacements@[p as int]@,
                2 * WORK_LIM as int,
                0x10_0000_0000_0000 - 1,
            );
            lemma_norm_seq_bound(
                displacements@[p + 1 as int]@,
                2 * WORK_LIM as int,
                0x10_0000_0000_0000 - 1,
            );
            lemma_mul_abs(
                norm_seq(displacements@[p as int]@),
                spring_constants@[p as int] as int,
                0x10_0000_0000_0000,
                SPRING_LIM as int,
            );
            lemma_mul_abs(
                norm_seq(displacements@[p + 1 as int]@),
                spring_constants@[p + 1 as int] as int,
                0x10_0000_0000_0000,
                SPRING_LIM as int,
            );
            lemma_div_tz_le(
                norm_seq(displacements@[p as int]@) * spring_constants@[p as int],
                SCALE as int,
                0x400_0000_0000_0000,
            );
            lemma_div_tz_le(
                norm_seq(displacements@[p + 1 as int]@) * spring_constants@[p + 1 as int],
                SCALE as int,
                0x400_0000_0000_0000,
            );
        }
        let nprev: i64 = norm_raw(&displacements[p]);
        let nnext: i64 = norm_raw(&displacements[p + 1]);
        let kprev: i64 = spring_constants[p];
        let knext: i64 = spring_constants[p + 1];
        let cnext: i128 = div_trunc((nnext as i128) * (knext as i128), SCALE as i128);
        let cprev: i128 = div_trunc((nprev as i128) * (kprev as i128), SCALE as i128);
        let c: i128 = cnext - cprev;
        let ghost ci: int = spring_coeff(displacements@, spring_constants@, p as int);
        proof {
            assert(c == ci);
            assert(abs_i(ci) <= 0x800_0000_0000_0000);
        }
        let tref: &Vec<V3> = &tangents[p];
        let m: usize = tref.len();
        let mut f: Vec<V3> = Vec::new();
        let mut a: usize = 0;
        while a < m
            invariant
                0 <= a <= m,
                m == tref@.len(),
                all_bounded(tref@, SCALE as int),
                c == ci,
                abs_i(ci) <= 0x800_0000_0000_0000,
                f@.len() == a,
                forall|b: int|
                    0 <= b < a ==> ((#[trigger] f@[b]).x == div_tz(ci * tref@[b].x, SCALE as int)
                        && f@[b].y == div_tz(ci * tref@[b].y, SCALE as int) && f@[b].z == div_tz(
                        ci * tref@[b].z,
                        SCALE as int,
                    )),
                forall|b: int|
                    0 <= b < a ==> crate::vector::v3_bounded(#[trigger] f@[b], SPRINGF_LIM as int),
            decreases m - a,
        {
            let t = tref[a];
            proof {
                assert(crate::vector::v3_bounded(tref@[a as int], SCALE as int));
                lemma_mul_abs(ci, t.x as int, 0x800_0000_0000_0000, SCALE as int);
                lemma_mul_abs(ci, t.y as int, 0x800_0000_0000_0000, SCALE as int);
                lemma_mul_abs(ci, t.z as int, 0x800_0000_0000_0000, SCALE as int);
                lemma_div_tz_le(ci * t.x, SCALE as int, SPRINGF_LIM as int);
                lemma_div_tz_le(ci * t.y, SCALE as int, SPRINGF_LIM as int);
                lemma_div_tz_le(ci * t.z, SCALE as int, SPRINGF_LIM as int);
            }
            let fx: i64 = div_trunc(c * (t.x as i128), SCALE as i128) as i64;
            let fy: i64 = div_trunc(c * (t.y as i128), SCALE as i128) as i64;
            let fz: i64 = div_trunc(c * (t.z as i128), SCALE as i128) as i64;
            f.push(V3 { x: fx, y: fy, z: fz });
            a = a + 1;
        }
        forces.push(f);
        p = p + 1;
    }
    forces
}

/// The perpendicular component of image `p + 1`'s real forces against
/// tangent `p`: `f - (f . t) * t`.
pub open spec fn perp_rel(r: Seq<Vec<V3>>, fs: Seq<Vec<V3>>, ts: Seq<Vec<V3>>) -> bool {
    &&& r.len() == ts.len()
    &&& forall|p: int, a: int|
        0 <= p < ts.len() && 0 <= a < ts[p]@.len() ==> ((#[trigger] r[p]@[a]).x == fs[p + 1]@[a].x
            - div_tz(
            div_tz(dot_seq(fs[p + 1]@, ts[p]@), SCALE as int) * ts[p]@[a].x,
            SCALE as int,
        ) && r[p]@[a].y == fs[p + 1]@[a].y - div_tz(
            div_tz(dot_seq(fs[p + 1]@, ts[p]@), SCALE as int) * ts[p]@[a].y,
            SCALE as int,
        ) && r[p]@[a].z == fs[p + 1]@[a].z - div_tz(
            div_tz(dot_seq(fs[p + 1]@, ts[p]@), SCALE as int) * ts[p]@[a].z,
            SCALE as int,
        ))
}

/// Perpendicular component of the real forces for all intermediate
/// images.
pub fn real_forces_perpendicular(all_forces: &Vec<Vec<V3>>, tangents: &Vec<Vec<V3>>) -> (r: Vec<
    Vec<V3>,
>)
    requires
        all_forces@.len() == tangents@.len() + 2,
        forall|j: int|
            0 <= j < all_forces@.len() ==> ((#[trigger] all_forces@[j])@.len() <= N_MAX
                && all_bounded(all_forces@[j]@, WORK_LIM as int)),
        forall|j: int|
            0 <= j < tangents@.len() ==> all_bounded((#[trigger] tangents@[j])@, SCALE as int),
        forall|j: int|
            0 <= j < tangents@.len() ==> (#[trigger] tangents@[j])@.len() == all_forces@[j
                + 1]@.len(),
    ensures
        perp_rel(r@, all_forces@, tangents@),
        r@.len() == tangents@.len(),
        forall|p: int|
            0 <= p < r@.len() ==> ((#[trigger] r@[p])@.len() == tangents@[p]@.len() && all_bounded(
                r@[p]@,
                PERP_LIM as int,
            )),
{
    let nt: usize = tangents.len();
    let mut vforces: Vec<Vec<V3>> = Vec::new();
    let mut p: usize = 0;
    while p < nt
        invariant
            0 <= p <= nt,
            nt == tangents@.len(),
            all_forces@.len() == nt + 2,
            forall|j: int|
                0 <= j < all_forces@.len() ==> ((#[trigger] all_forces@[j])@.len() <= N_MAX
                    && all_bounded(all_forces@[j]@, WORK_LIM as int)),
            forall|j: int|
                0 <= j < tangents@.len() ==> all_bounded((#[trigger] tangents@[j])@, SCALE as int),
            forall|j: int|
                0 <= j < tangents@.len() ==> (#[trigger] tangents@[j])@.len() == all_forces@[j
                    + 1]@.len(),
            vforces@.len() == p,
            forall|q: int, a: int|
                0 <= q < p && 0 <= a < tangents@[q]@.len() ==> ((#[trigger] vforces@[q]@[a]).x
                    == all_forces@[q + 1]@[a].x - div_tz(
                    div_tz(dot_seq(all_forces@[q + 1]@, tangents@[q]@), SCALE as int)
                        * tangents@[q]@[a].x,
                    SCALE as int,
                ) && vforces@[q]@[a].y == all_forces@[q + 1]@[a].y - div_tz(
                    div_tz(dot_seq(all_forces@[q + 1]@, tangents@[q]@), SCALE as int)
                        * tangents@[q]@[a].y,
                    SCALE as int,
                ) && vforces@[q]@[a].z == all_forces@[q + 1]@[a].z - div_tz(
                    div_tz(dot_seq(all_forces@[q + 1]@, tangents@[q]@), SCALE as int)
                        * tangents@[q]@[a].z,
                    SCALE as int,
                )),
            forall|q: int|
                0 <= q < p ==> ((#[trigger] vforces@[q])@.len() == tangents@[q]@.len()
                    && all_bounded(vforces@[q]@, PERP_LIM as int)),
        decreases nt - p,
    {
        let fref: &Vec<V3> = &all_forces[p + 1];
        let tref: &Vec<V3> = &tangents[p];
        proof {
            lemma_all_bounded_widen(fref@, WORK_LIM as int, DOT_LIM as int);
            lemma_all_bounded_widen(tref@, SCALE as int, DOT_LIM as int);
            lemma_dot_seq_bound(fref@, tref@, WORK_LIM as int, SCALE as int);
            assert(3 * fref@.len() * (WORK_LIM as int) * (SCALE as int) <= 3 * (N_MAX as int) * (
            WORK_LIM as int) * (SCALE as int)) by (nonlinear_arith)
                requires
                    0 <= fref@.len() <= (N_MAX as int),
            {}
            assert(3 * (N_MAX as int) * (WORK_LIM as int) * (SCALE as int) == (SCALE as int) * (3
                * (N_MAX as int) * (WORK_LIM as int))) by (nonlinear_arith) {}
            lemma_div_tz_le(
                dot_seq(fref@, tref@),
                SCALE as int,
                3 * (N_MAX as int) * (WORK_LIM as int),
            );
        }
        let dfx: i128 = dot(fref, tref);
        let c: i128 = div_trunc(dfx, SCALE as i128);
        let ghost ci: int = div_tz(dot_seq(fref@, tref@), SCALE as int);
        proof {
            assert(c == ci);
            assert(abs_i(ci) <= 0x3000_0000_0000_0000);
        }
        let m: usize = tref.len();
        let mut f: Vec<V3> = Vec::new();
        let mut a: usize = 0;
        while a < m
            invariant
                0 <= a <= m,
                m == tref@.len(),
                m == fref@.len(),
                all_bounded(tref@, SCALE as int),
                all_bounded(fref@, WORK_LIM as int),
                c == ci,
                abs_i(ci) <= 0x3000_0000_0000_0000,
                f@.len() == a,
                forall|b: int|
                    0 <= b < a ==> ((#[trigger] f@[b]).x == fref@[b].x - div_tz(
                        ci * tref@[b].x,
                        SCALE as int,
                    ) && f@[b].y == fref@[b].y - div_tz(ci * tref@[b].y, SCALE as int) && f@[b].z
                        == fref@[b].z - div_tz(ci * tref@[b].z, SCALE as int)),
                forall|b: int|
                    0 <= b < a ==> crate::vector::v3_bounded(#[trigger] f@[b], PERP_LIM as int),
            decreases m - a,
        {
            let t = tref[a];
            let fv = fref[a];
            proof {
                assert(crate::vector::v3_bounded(tref@[a as int], SCALE as int));
                assert(crate::vector::v3_bounded(fref@[a as int], WORK_LIM as int));
                lemma_mul_abs(ci, t.x as int, 0x3000_0000_0000_0000, SCALE as int);
                lemma_mul_abs(ci, t.y as int, 0x3000_0000_0000_0000, SCALE as int);
                lemma_mul_abs(ci, t.z as int, 0x3000_0000_0000_0000, SCALE as int);
                lemma_div_tz_le(ci * t.x, SCALE as int, 0x3000_0000_0000_0000);
                lemma_div_tz_le(ci * t.y, SCALE as int, 0x3000_0000_0000_0000);
                lemma_div_tz_le(ci * t.z, SCALE as int, 0x3000_0000_0000_0000);
            }
            let px: i64 = ((fv.x as i128) - div_trunc(c * (t.x as i128), SCALE as i128)) as i64;
            let py: i64 = ((fv.y as i128) - div_trunc(c * (t.y as i128), SCALE as i128)) as i64;
            let pz: i64 = ((fv.z as i128) - div_trunc(c * (t.z as i128), SCALE as i128)) as i64;
            f.push(V3 { x: px, y: py, z: pz });
            a = a + 1;
        }
        vforces.push(f);
        p = p + 1;
    }
    vforces
}

/// Image `i` is a local energy maximum: both neighbors lie lower by
/// more than the tolerance.
pub open spec fn is_peak(e: Seq<i64>, i: int, tol: int) -> bool {
    &&& 1 <= i < e.len() - 1
    &&& e[i] - e[i - 1] > tol
    &&& e[i] - e[i + 1] > tol
}

/// How many of the images `1 .. k` are peaks.
pub open spec fn peak_count_upto(e: Seq<i64>, tol: int, k: int) -> int
    decreases k,
{
    if k <= 1 {
        0
    } else {
        peak_count_upto(e, tol, k - 1) + if is_peak(e, k - 1, tol) {
            1int
        } else {
            0int
        }
    }
}

/// How many intermediate images are peaks.
pub open spec fn peak_count(e: Seq<i64>, tol: int) -> int {
    peak_count_upto(e, tol, e.len() - 1)
}

/// Locate the climbing image: succeeds exactly when there is one
/// unique energy peak, and returns its index.
pub fn find_climbing_image(energies: &Vec<i64>, tol: i64) -> (r: Result<usize, Error>)
    requires
        energies@.len() >= 3,
        forall|j: int| 0 <= j < energies@.len() ==> abs_i(#[trigger] energies@[j] as int)
            <= WORK_LIM,
    ensures
        r is Ok <==> peak_count(energies@, tol as int) == 1,
        r matches Ok(i) ==> is_peak(energies@, i as int, tol as int),
        r matches Err(e) ==> (e matches Error::AmbiguousClimbingImage { count } && count
            == peak_count(energies@, tol as int) && count != 1),
{
    let n: usize = energies.len();
    let mut count: usize = 0;
    let mut last: usize = 0;
    let mut i: usize = 1;
    while i < n - 1
        invariant
            1 <= i <= n - 1,
            n == energies@.len(),
            n >= 3,
            forall|j: int| 0 <= j < energies@.len() ==> abs_i(#[trigger] energies@[j] as int)
                <= WORK_LIM,
            count == peak_count_upto(energies@, tol as int, i as int),
            0 <= count < i,
            count >= 1 ==> is_peak(energies@, last as int, tol as int),
        decreases n - 1 - i,
    {
        proof {
            assert(abs_i(energies@[i as int] as int) <= WORK_LIM);
            assert(abs_i(energies@[i - 1] as int) <= WORK_LIM);
            assert(abs_i(energies@[i + 1] as int) <= WORK_LIM);
        }
        let eprev: i64 = energies[i - 1];
        let ethis: i64 = energies[i];
        let enext: i64 = energies[i + 1];
        if ethis - eprev > tol && ethis - enext > tol {
            count = count + 1;
            last = i;
        }
        i = i + 1;
    }
    if count == 1 {
        Ok(last)
    } else {
        Err(Error::AmbiguousClimbingImage { count })
    }
}

/// The cached energy of every image (meaningful once all are cached).
pub open spec fn cached_energies(images: Seq<Image>) -> Seq<i64> {
    Seq::new(images.len(), |i: int| images[i].energy->Some_0)
}

impl NEB {
    /// Collect the cached energy and forces of every image; fails on
    /// the first image whose cache is empty.
    pub fn collect_energies_and_forces(&self) -> (r: Result<(Vec<i64>, Vec<Vec<V3>>), Error>)
        ensures
            r is Ok <==> (forall|i: int|
                0 <= i < self.images@.len() ==> ((#[trigger] self.images@[i]).energy is Some
                    && self.images@[i].forces is Some)),
            r matches Err(e) ==> ((e matches Error::MissingEnergy { image } ==> (image
                < self.images@.len() && self.images@[image as int].energy is None)) && (
            e matches Error::MissingForces { image } ==> (image < self.images@.len()
                && self.images@[image as int].forces is None)) && (e is MissingEnergy
                || e is MissingForces)),
            r matches Ok(efs) ==> (efs.0@ == cached_energies(self.images@) && efs.1@.len()
                == self.images@.len() && (forall|i: int|
                0 <= i < self.images@.len() ==> (#[trigger] efs.1@[i])@ == self.images@[i].forces->Some_0@)),
    {
        let n: usize = self.images.len();
        let mut energies: Vec<i64> = Vec::new();
        let mut forces: Vec<Vec<V3>> = Vec::new();
        let mut i: usize = 0;
        while i < n
            invariant
                0 <= i <= n,
                n == self.images@.len(),
                energies@.len() == i,
                forces@.len() == i,
                forall|j: int|
                    0 <= j < i ==> ((#[trigger] self.images@[j]).energy is Some
                        && self.images@[j].forces is Some),
                forall|j: int|
                    0 <= j < i ==> #[trigger] energies@[j] == self.images@[j].energy->Some_0,
                forall|j: int|
                    0 <= j < i ==> (#[trigger] forces@[j])@ == self.images@[j].forces->Some_0@,
            decreases n - i,
        {
            match &self.images[i].energy {
                Some(e) => {
                    energies.push(*e);
                },
                None => {
                    return Err(Error::MissingEnergy { image: i });
                },
            }
            match &self.images[i].forces {
                Some(f) => {
                    forces.push(copy_vec(f));
                },
                None => {
                    return Err(Error::MissingForces { image: i });
                },
            }
            i = i + 1;
        }
        proof {
            assert(energies@ =~= cached_energies(self.images@));
        }
        Ok((energies, forces))
    }
}

impl NEB {
    /// Evaluate the model on every image, caching energy and forces.
    /// A model failure, or a result without energy or forces, is fatal
    /// and leaves the chain untouched.
    pub fn calculate<M: ChemicalModel>(&mut self, model: &M) -> (r: Result<(), Error>)
        ensures
            final(self).images@.len() == old(self).images@.len(),
            final(self).climbing == old(self).climbing,
            final(self).climbing_tol == old(self).climbing_tol,
            final(self).spring_constants@ == old(self).spring_constants@,
            forall|i: int|
                0 <= i < old(self).images@.len() ==> (#[trigger] final(self).images@[i]).mol.atoms@
                    == old(self).images@[i].mol.atoms@,
            r is Err ==> *final(self) == *old(self),
            r is Ok ==> (forall|i: int|
                0 <= i < old(self).images@.len() ==> ((#[trigger] final(self).images@[i]).energy is Some && (final(self).images@[i].forces matches Some(fv)
                    && fv@.len() == old(self).images@[i].mol.atoms@.len()))),
    {
        let n: usize = self.images.len();
        let mut mols: Vec<Structure> = Vec::new();
        let mut i: usize = 0;
        while i < n
            invariant
                0 <= i <= n,
                n == self.images@.len(),
                mols@.len() == i,
            decreases n - i,
        {
            mols.push(self.images[i].mol.duplicate());
            i = i + 1;
        }
        let all: Vec<crate::models::ModelProperties> = match model.compute_many(&mols) {
            Ok(a) => a,
            Err(e) => {
                return Err(e);
            },
        };
        if all.len() != n {
            return Err(Error::SizeMismatch);
        }
        let mut new_images: Vec<Image> = Vec::new();
        let mut k: usize = 0;
        while k < n
            invariant
                0 <= k <= n,
                n == self.images@.len(),
                n == all@.len(),
                new_images@.len() == k,
                forall|j: int|
                    0 <= j < k ==> ((#[trigger] new_images@[j]).mol.atoms@
                        == self.images@[j].mol.atoms@ && new_images@[j].energy is Some
                        && (new_images@[j].forces matches Some(fv) && fv@.len()
                        == self.images@[j].mol.atoms@.len())),
            decreases n - k,
        {
            let e: i64 = match all[k].energy {
                Some(e) => e,
                None => {
                    return Err(Error::MissingEnergy { image: k });
                },
            };
            let f: Vec<V3> = match &all[k].forces {
                Some(f) => copy_vec(f),
                None => {
                    return Err(Error::MissingForces { image: k });
                },
            };
            if f.len() != self.images[k].mol.natoms() {
                return Err(Error::SizeMismatch);
            }
            new_images.push(
                Image { mol: self.images[k].mol.duplicate(), energy: Some(e), forces: Some(f) },
            );
            k = k + 1;
        }
        self.images = new_images;
        Ok(())
    }

    /// Carry out the NEB optimization: evaluate, decompose, relax with
    /// one shared FIRE state over the concatenated chain, and move the
    /// intermediate images; the two endpoints are never moved.  Running
    /// out of cycles is not an error and is reported in the returned
    /// report.
    pub fn run<M: ChemicalModel>(
        &mut self,
        model: &M,
        criteria: &crate::optimization::ConvergenceCriteria,
    ) -> (r: Result<crate::optimization::RunReport, Error>)
        requires
            criteria.wf(),
        ensures
            r matches Ok(rep) ==> rep.ncycles <= criteria.max_cycle,
            final(self).images@.len() == old(self).images@.len(),
            forall|i: int|
                0 <= i < old(self).images@.len() ==> ((#[trigger] final(self).images@[i]).mol.atoms@.len() == old(self).images@[i].mol.atoms@.len() && final(self).images@[i].mol.elements() == old(self).images@[i].mol.elements()),
            old(self).images@.len() > 0 ==> (final(self).images@[0].mol.positions_spec() == old(
                self,
            ).images@[0].mol.positions_spec() && final(self).images@[old(self).images@.len()
                - 1].mol.positions_spec() == old(self).images@[old(self).images@.len()
                - 1].mol.positions_spec()),
    {
        let mut fire = crate::optimization::fire::FIRE::default();
        let mut cycle: usize = 0;
        while cycle < criteria.max_cycle
            invariant
                cycle <= criteria.max_cycle,
                criteria.wf(),
                fire.wf(),
                self.images@.len() == old(self).images@.len(),
                forall|i: int|
                    0 <= i < old(self).images@.len() ==> ((#[trigger] self.images@[i]).mol.atoms@.len()
                        == old(self).images@[i].mol.atoms@.len() && self.images@[i].mol.elements()
                        == old(self).images@[i].mol.elements()),
                old(self).images@.len() > 0 ==> (self.images@[0].mol.positions_spec() == old(
                    self,
                ).images@[0].mol.positions_spec() && self.images@[old(self).images@.len()
                    - 1].mol.positions_spec() == old(self).images@[old(self).images@.len()
                    - 1].mol.positions_spec()),
            decreases criteria.max_cycle - cycle,
        {
            // 1. real energies and forces for every image
            match self.calculate(model) {
                Ok(()) => {},
                Err(e) => {
                    return Err(e);
                },
            }
            let arr_forces = match self.neb_forces() {
                Ok(fs) => fs,
                Err(e) => {
                    return Err(e);
                },
            };
            let nimages: usize = self.images.len();
            let natoms: usize = self.images[0].mol.natoms();
            let nf: usize = arr_forces.len();
            // guard against a malformed chain before slicing
            let mut q: usize = 0;
            while q < nf
                invariant
                    0 <= q <= nf,
                    nf == arr_forces@.len(),
                    forall|j: int| 0 <= j < q ==> (#[trigger] arr_forces@[j])@.len() == natoms,
                    self.images@.len() == old(self).images@.len(),
                    forall|i2: int|
                        0 <= i2 < old(self).images@.len() ==> ((#[trigger] self.images@[i2]).mol.atoms@.len()
                            == old(self).images@[i2].mol.atoms@.len()
                            && self.images@[i2].mol.elements()
                            == old(self).images@[i2].mol.elements()),
                    old(self).images@.len() > 0 ==> (self.images@[0].mol.positions_spec() == old(
                        self,
                    ).images@[0].mol.positions_spec() && self.images@[old(self).images@.len()
                        - 1].mol.positions_spec() == old(self).images@[old(self).images@.len()
                        - 1].mol.positions_spec()),
                decreases nf - q,
            {
                if arr_forces[q].len() != natoms {
                    return Err(Error::SizeMismatch);
                }
                q = q + 1;
            }
            // flatten the per-image forces into one system
            let mut forces: Vec<V3> = Vec::new();
            let mut p: usize = 0;
            while p < nf
                invariant
                    0 <= p <= nf,
                    nf == arr_forces@.len(),
                    forall|q2: int| 0 <= q2 < nf ==> (#[trigger] arr_forces@[q2])@.len() == natoms,
                    forces@.len() == p * natoms,
                decreases nf - p,
            {
                let inner: &Vec<V3> = &arr_forces[p];
                let m: usize = inner.len();
                proof {
                    assert(p * natoms + natoms == (p + 1) * natoms) by (nonlinear_arith) {}
                    assert((p + 1) * natoms <= nf * natoms) by (nonlinear_arith)
                        requires
                            0 <= p + 1 <= nf,
                            natoms >= 0,
                    {}
                }
                let mut a: usize = 0;
                while a < m
                    invariant
                        0 <= a <= m,
                        m == inner@.len(),
                        m == natoms,
                        forces@.len() == p * natoms + a,
                    decreases m - a,
                {
                    forces.push(inner[a]);
                    a = a + 1;
                }
                p = p + 1;
            }
            let dvects = match fire.displacement_vectors(&forces) {
                Ok(d) => d,
                Err(e) => {
                    return Err(e);
                },
            };
            proof {
                crate::vector::lemma_all_bounded_widen(
                    dvects@,
                    fire.maxdisp as int,
                    WORK_LIM as int,
                );
            }
            if fire.converged(&forces, &dvects, criteria) {
                return Ok(crate::optimization::RunReport { converged: true, ncycles: cycle });
            }
            // 2. move the intermediate images
            let dlen: usize = dvects.len();
            let mut new_images: Vec<Image> = Vec::new();
            let mut img: usize = 0;
            while img < nimages
                invariant
                    0 <= img <= nimages,
                    nimages == self.images@.len(),
                    self.images@.len() == old(self).images@.len(),
                    forall|i2: int|
                        0 <= i2 < old(self).images@.len() ==> ((#[trigger] self.images@[i2]).mol.atoms@.len()
                            == old(self).images@[i2].mol.atoms@.len()
                            && self.images@[i2].mol.elements()
                            == old(self).images@[i2].mol.elements()),
                    old(self).images@.len() > 0 ==> (self.images@[0].mol.positions_spec() == old(
                        self,
                    ).images@[0].mol.positions_spec() && self.images@[old(self).images@.len()
                        - 1].mol.positions_spec() == old(self).images@[old(self).images@.len()
                        - 1].mol.positions_spec()),

                    nimages >= 3,
                    natoms == self.images@[0].mol.atoms@.len(),
                    forall|j: int|
                        0 <= j < nimages ==> (#[trigger] self.images@[j]).mol.atoms@.len()
                            == natoms,
                    dvects@.len() == (nimages - 2) * natoms,
                    dlen == dvects@.len(),
                    all_bounded(dvects@, WORK_LIM as int),
                    new_images@.len() == img,
                    forall|j: int|
                        0 <= j < img ==> ((#[trigger] new_images@[j]).mol.atoms@.len()
                            == self.images@[j].mol.atoms@.len() && new_images@[j].mol.elements()
                            == self.images@[j].mol.elements()),
                    img > 0 ==> new_images@[0].mol.positions_spec()
                        == self.images@[0].mol.positions_spec(),
                    img == nimages ==> new_images@[nimages - 1].mol.positions_spec()
                        == self.images@[nimages - 1].mol.positions_spec(),
                decreases nimages - img,
            {
                if img == 0 || img == nimages - 1 {
                    let keep = Image {
                        mol: self.images[img].mol.duplicate(),
                        energy: self.images[img].energy,
                        forces: match &self.images[img].forces {
                            Some(f) => Some(copy_vec(f)),
                            None => None,
                        },
                    };
                    new_images.push(keep);
                } else {
                    let mut positions = self.images[img].mol.positions();
                    if !crate::vector::check_bounded(&positions, WORK_LIM) {
                        return Err(Error::OutOfRange);
                    }
                    proof {
                        assert((img - 1) * natoms + natoms <= (nimages - 2) * natoms)
                            by (nonlinear_arith)
                            requires
                                1 <= img <= nimages - 2,
                                natoms >= 0,
                        {}
                    }
                    let shift: usize = (img - 1) * natoms;
                    crate::vector::apply_displacement_slice(&mut positions, &dvects, shift);
                    let mut mol = self.images[img].mol.duplicate();
                    mol.set_positions(&positions);
                    // positions moved: the cached energy and forces no
                    // longer describe this image
                    new_images.push(Image { mol, energy: None, forces: None });
                }
                img = img + 1;
            }
            self.images = new_images;
            cycle = cycle + 1;
        }
        Ok(crate::optimization::RunReport { converged: false, ncycles: cycle })
    }
}

/// The climbing-image force: the real forces with the tangential
/// component fully inverted, `f - 2 * (f . t) * t`.
pub open spec fn climb_rel(fc: Seq<V3>, f: Seq<V3>, t: Seq<V3>) -> bool {
    &&& fc.len() == f.len()
    &&& t.len() == f.len()
    &&& forall|a: int|
        0 <= a < f.len() ==> ((#[trigger] fc[a]).x == f[a].x - div_tz(
            2 * div_tz(dot_seq(f, t), SCALE as int) * t[a].x,
            SCALE as int,
        ) && fc[a].y == f[a].y - div_tz(
            2 * div_tz(dot_seq(f, t), SCALE as int) * t[a].y,
            SCALE as int,
        ) && fc[a].z == f[a].z - div_tz(
            2 * div_tz(dot_seq(f, t), SCALE as int) * t[a].z,
            SCALE as int,
        ))
}

/// Replace the NEB force of the unique climbing image by the fully
/// inverted real force; rejects a chain with no or several peaks.
pub fn fix_climbing_image(
    forces_neb: &mut Vec<Vec<V3>>,
    energies: &Vec<i64>,
    all_forces: &Vec<Vec<V3>>,
    tangents: &Vec<Vec<V3>>,
    tol: i64,
) -> (r: Result<(), Error>)
    requires
        energies@.len() >= 3,
        old(forces_neb)@.len() == energies@.len() - 2,
        tangents@.len() == energies@.len() - 2,
        all_forces@.len() == energies@.len(),
        forall|j: int| 0 <= j < energies@.len() ==> abs_i(#[trigger] energies@[j] as int)
            <= WORK_LIM,
        forall|j: int|
            0 <= j < all_forces@.len() ==> ((#[trigger] all_forces@[j])@.len() <= N_MAX
                && all_bounded(all_forces@[j]@, WORK_LIM as int)),
        forall|j: int|
            0 <= j < tangents@.len() ==> (all_bounded((#[trigger] tangents@[j])@, SCALE as int)
                && tangents@[j]@.len() == all_forces@[j + 1]@.len()),
    ensures
        r is Ok <==> peak_count(energies@, tol as int) == 1,
        r matches Err(e) ==> (e matches Error::AmbiguousClimbingImage { count } && count
            == peak_count(energies@, tol as int) && count != 1 && final(forces_neb)@ == old(
            forces_neb,
        )@),
        final(forces_neb)@.len() == old(forces_neb)@.len(),
        r is Ok ==> (forall|p: int|
            0 <= p < old(forces_neb)@.len() ==> if is_peak(energies@, p + 1, tol as int) {
                climb_rel(
                    (#[trigger] final(forces_neb)@[p])@,
                    all_forces@[p + 1]@,
                    tangents@[p]@,
                )
            } else {
                final(forces_neb)@[p] == old(forces_neb)@[p]
            }),
{
    let imax: usize = match find_climbing_image(energies, tol) {
        Ok(i) => i,
        Err(e) => {
            return Err(e);
        },
    };
    let fref: &Vec<V3> = &all_forces[imax];
    let tref: &Vec<V3> = &tangents[imax - 1];
    proof {
        lemma_all_bounded_widen(fref@, WORK_LIM as int, DOT_LIM as int);
        lemma_all_bounded_widen(tref@, SCALE as int, DOT_LIM as int);
        lemma_dot_seq_bound(fref@, tref@, WORK_LIM as int, SCALE as int);
        assert(3 * fref@.len() * (WORK_LIM as int) * (SCALE as int) <= 3 * (N_MAX as int) * (
        WORK_LIM as int) * (SCALE as int)) by (nonlinear_arith)
            requires
                0 <= fref@.len() <= (N_MAX as int),
        {}
        assert(3 * (N_MAX as int) * (WORK_LIM as int) * (SCALE as int) == (SCALE as int) * (3 * (
        N_MAX as int) * (WORK_LIM as int))) by (nonlinear_arith) {}
        lemma_div_tz_le(
            dot_seq(fref@, tref@),
            SCALE as int,
            3 * (N_MAX as int) * (WORK_LIM as int),
        );
    }
    let dfx: i128 = dot(fref, tref);
    let c: i128 = div_trunc(dfx, SCALE as i128);
    let ghost ci: int = div_tz(dot_seq(fref@, tref@), SCALE as int);
    proof {
        assert(c == ci);
        assert(abs_i(ci) <= 0x3000_0000_0000_0000);
    }
    let m: usize = tref.len();
    let mut fc: Vec<V3> = Vec::new();
    let mut a: usize = 0;
    while a < m
        invariant
            0 <= a <= m,
            m == tref@.len(),
            m == fref@.len(),
            all_bounded(tref@, SCALE as int),
            all_bounded(fref@, WORK_LIM as int),
            c == ci,
            abs_i(ci) <= 0x3000_0000_0000_0000,
            fc@.len() == a,
            forall|b: int|
                0 <= b < a ==> ((#[trigger] fc@[b]).x == fref@[b].x - div_tz(
                    2 * ci * tref@[b].x,
                    SCALE as int,
                ) && fc@[b].y == fref@[b].y - div_tz(2 * ci * tref@[b].y, SCALE as int) && fc@[b].z
                    == fref@[b].z - div_tz(2 * ci * tref@[b].z, SCALE as int)),
        decreases m - a,
    {
        let t = tref[a];
        let fv = fref[a];
        proof {
            assert(crate::vector::v3_bounded(tref@[a as int], SCALE as int));
            assert(crate::vector::v3_bounded(fref@[a as int], WORK_LIM as int));
            lemma_mul_abs(2 * ci, t.x as int, 0x6000_0000_0000_0000, SCALE as int);
            lemma_mul_abs(2 * ci, t.y as int, 0x6000_0000_0000_0000, SCALE as int);
            lemma_mul_abs(2 * ci, t.z as int, 0x6000_0000_0000_0000, SCALE as int);
            lemma_div_tz_le(2 * ci * t.x, SCALE as int, 0x6000_0000_0000_0000);
            lemma_div_tz_le(2 * ci * t.y, SCALE as int, 0x6000_0000_0000_0000);
            lemma_div_tz_le(2 * ci * t.z, SCALE as int, 0x6000_0000_0000_0000);
        }
        let gx: i64 = ((fv.x as i128) - div_trunc(2 * c * (t.x as i128), SCALE as i128)) as i64;
        let gy: i64 = ((fv.y as i128) - div_trunc(2 * c * (t.y as i128), SCALE as i128)) as i64;
        let gz: i64 = ((fv.z as i128) - div_trunc(2 * c * (t.z as i128), SCALE as i128)) as i64;
        fc.push(V3 { x: gx, y: gy, z: gz });
        a = a + 1;
    }
    forces_neb.set(imax - 1, fc);
    proof {
        assert forall|p: int| 0 <= p < forces_neb@.len() implies (if is_peak(
            energies@,
            p + 1,
            tol as int,
        ) {
            climb_rel((#[trigger] forces_neb@[p])@, all_forces@[p + 1]@, tangents@[p]@)
        } else {
            forces_neb@[p] == old(forces_neb)@[p]
        }) by {
            if is_peak(energies@, p + 1, tol as int) {
                if p + 1 != imax {
                    if p + 1 < imax {
                        lemma_two_peaks_ambiguous(energies@, tol as int, p + 1, imax as int);
                    } else {
                        lemma_two_peaks_ambiguous(energies@, tol as int, imax as int, p + 1);
                    }
                }
            }
        }
    }
    Ok(())
}

/// Bound on a combined NEB force component.
pub const NEBF_LIM: i64 = 0x6800_0300_0000_0000;

/// The displacement pair `R_(p+1) - R_p` of a chain, componentwise
/// over the cached positions (exact whenever the positions sit in the
/// working range).
pub open spec fn chain_disp(images: Seq<Image>, p: int) -> Seq<V3> {
    let this = images[p].mol.positions_spec();
    let next = images[p + 1].mol.positions_spec();
    Seq::new(
        this.len(),
        |a: int|
            (V3 {
                x: (next[a].x - this[a].x) as i64,
                y: (next[a].y - this[a].y) as i64,
                z: (next[a].z - this[a].z) as i64,
            }),
    )
}

/// The weighted displacement combination that the improved tangent of
/// intermediate image `i + 1` normalizes, as a value of the chain.
pub open spec fn chain_combined(images: Seq<Image>, i: int) -> Seq<V3> {
    let es = cached_energies(images);
    let w = tangent_weights(es[i] as int, es[i + 1] as int, es[i + 2] as int);
    combined_seq(chain_disp(images, i), chain_disp(images, i + 1), w.0, w.1)
}

/// The artifacts a NEB force evaluation is computed from, and how each
/// follows from the chain: displacements between neighbors, cached
/// forces, normalized energy-weighted tangents, spring components and
/// perpendicular components.
pub open spec fn neb_chain_rel(
    images: Seq<Image>,
    ks: Seq<i64>,
    ds: Seq<Vec<V3>>,
    fs: Seq<Vec<V3>>,
    ts: Seq<Vec<V3>>,
    f1: Seq<Vec<V3>>,
    f2: Seq<Vec<V3>>,
) -> bool {
    let n = images.len();
    let es = cached_energies(images);
    &&& n >= 3
    &&& ds.len() == n - 1
    &&& (forall|p: int|
        0 <= p < n - 1 ==> displacement_matches(
            (#[trigger] ds[p])@,
            images[p].mol.positions_spec(),
            images[p + 1].mol.positions_spec(),
        ))
    &&& fs.len() == n
    &&& (forall|i: int|
        0 <= i < n ==> ((#[trigger] images[i]).forces is Some && fs[i]@ == images[i].forces->Some_0@))
    &&& ts.len() == n - 2
    &&& (forall|i: int|
        0 <= i < n - 2 ==> (normalized_rel(#[trigger] improved_combined(ds, es, i), ts[i]@)
            && norm_seq(improved_combined(ds, es, i)) > 1000))
    &&& spring_rel(f1, ds, ks, ts)
    &&& perp_rel(f2, fs, ts)
}

/// The effective NEB force: spring plus perpendicular component, with
/// the unique climbing image (when enabled) fully inverted instead.
pub open spec fn neb_result_rel(
    fneb: Seq<Vec<V3>>,
    f1: Seq<Vec<V3>>,
    f2: Seq<Vec<V3>>,
    fs: Seq<Vec<V3>>,
    ts: Seq<Vec<V3>>,
    es: Seq<i64>,
    tol: int,
    climbing: bool,
) -> bool {
    &&& fneb.len() == f1.len()
    &&& (climbing ==> peak_count(es, tol) == 1)
    &&& (forall|p: int|
        0 <= p < fneb.len() ==> if climbing && is_peak(es, p + 1, tol) {
            climb_rel((#[trigger] fneb[p])@, fs[p + 1]@, ts[p]@)
        } else {
            fneb[p]@.len() == f1[p]@.len() && (forall|a: int|
                0 <= a < f1[p]@.len() ==> ((#[trigger] fneb[p]@[a]).x == f1[p]@[a].x + f2[p]@[a].x
                    && fneb[p]@[a].y == f1[p]@[a].y + f2[p]@[a].y && fneb[p]@[a].z == f1[p]@[a].z
                    + f2[p]@[a].z))
        })
}

impl NEB {
    /// Exactly when a NEB force evaluation succeeds: a usable chain,
    /// complete caches within the working range, one spring constant
    /// per neighboring pair, tangents long enough to normalize, and —
    /// when climbing — a unique energy peak.
    pub open spec fn accepts(self) -> bool {
        let n = self.images@.len();
        let es = cached_energies(self.images@);
        &&& chain_wf(self.images@)
        &&& self.images@[0].mol.atoms@.len() <= N_MAX
        &&& (forall|i: int|
            0 <= i < n ==> ((#[trigger] self.images@[i]).energy is Some
                && self.images@[i].forces is Some))
        &&& (forall|i: int|
            0 <= i < n ==> all_bounded(
                (#[trigger] self.images@[i]).mol.positions_spec(),
                WORK_LIM as int,
            ))
        &&& (forall|i: int| 0 <= i < n ==> abs_i(#[trigger] es[i] as int) <= WORK_LIM)
        &&& (forall|i: int|
            0 <= i < n ==> ((#[trigger] self.images@[i]).forces->Some_0@.len()
                == self.images@[0].mol.atoms@.len() && all_bounded(
                self.images@[i].forces->Some_0@,
                WORK_LIM as int,
            )))
        &&& self.spring_constants@.len() == n - 1
        &&& (forall|j: int|
            0 <= j < n - 1 ==> abs_i(#[trigger] self.spring_constants@[j] as int) <= SPRING_LIM)
        &&& (forall|i: int|
            0 <= i < n - 2 ==> norm_seq(#[trigger] chain_combined(self.images@, i)) > 1000)
        &&& (self.climbing ==> peak_count(es, self.climbing_tol as int) == 1)
    }

    /// The resulting NEB forces of all intermediate images.
    pub fn neb_forces(&self) -> (r: Result<Vec<Vec<V3>>, Error>)
        ensures
            r is Ok <==> self.accepts(),
            r is Ok ==> chain_wf(self.images@),
            r matches Ok(fneb) ==> (fneb@.len() == self.images@.len() - 2 && (exists|
                ds: Seq<Vec<V3>>,
                fs: Seq<Vec<V3>>,
                ts: Seq<Vec<V3>>,
                f1: Seq<Vec<V3>>,
                f2: Seq<Vec<V3>>,
            |
                #[trigger] neb_chain_rel(
                    self.images@,
                    self.spring_constants@,
                    ds,
                    fs,
                    ts,
                    f1,
                    f2,
                ) && neb_result_rel(
                    fneb@,
                    f1,
                    f2,
                    fs,
                    ts,
                    cached_energies(self.images@),
                    self.climbing_tol as int,
                    self.climbing,
                ))),
            r matches Err(e) ==> (e matches Error::AmbiguousClimbingImage { count } ==> (
            self.climbing && count == peak_count(
                cached_energies(self.images@),
                self.climbing_tol as int,
            ) && count != 1)),
            r matches Err(e) ==> (e is TooFewImages || e is AtomCountMismatch
                || e is ElementMismatch || e is MissingEnergy || e is MissingForces
                || e is SizeMismatch || e is OutOfRange || e is DegenerateTangent
                || e is AmbiguousClimbingImage),
    {
        match self.check_images() {
            Ok(()) => {},
            Err(e) => {
                return Err(e);
            },
        }
        let n: usize = self.images.len();
        let natoms: usize = self.images[0].mol.natoms();
        if natoms > N_MAX {
            return Err(Error::OutOfRange);
        }
        let ds: Vec<Vec<V3>> = match get_neighboring_images_displacements(&self.images) {
            Ok(d) => d,
            Err(e) => {
                return Err(e);
            },
        };
        let (es, fs): (Vec<i64>, Vec<Vec<V3>>) = match self.collect_energies_and_forces() {
            Ok(efs) => efs,
            Err(e) => {
                return Err(e);
            },
        };
        // working-range checks on everything the model handed back
        let mut j: usize = 0;
        while j < n
            invariant
                0 <= j <= n,
                n == es@.len(),
                n == self.images@.len(),
                es@ == cached_energies(self.images@),
                forall|q: int| 0 <= q < j ==> abs_i(#[trigger] es@[q] as int) <= WORK_LIM,
            decreases n - j,
        {
            let e: i64 = es[j];
            if e > WORK_LIM || e < -WORK_LIM {
                proof {
                    assert(abs_i(cached_energies(self.images@)[j as int] as int) > WORK_LIM);
                }
                return Err(Error::OutOfRange);
            }
            j = j + 1;
        }
        let mut k: usize = 0;
        while k < n
            invariant
                0 <= k <= n,
                n == fs@.len(),
                n == self.images@.len(),
                natoms == self.images@[0].mol.atoms@.len(),
                forall|q: int|
                    0 <= q < n ==> (#[trigger] fs@[q])@ == self.images@[q].forces->Some_0@,
                forall|q: int|
                    0 <= q < k ==> ((#[trigger] fs@[q])@.len() == natoms && all_bounded(
                        fs@[q]@,
                        WORK_LIM as int,
                    )),
            decreases n - k,
        {
            if fs[k].len() != natoms {
                proof {
                    assert(fs@[k as int]@ == self.images@[k as int].forces->Some_0@);
                }
                return Err(Error::SizeMismatch);
            }
            if !crate::vector::check_bounded(&fs[k], WORK_LIM) {
                proof {
                    assert(fs@[k as int]@ == self.images@[k as int].forces->Some_0@);
                }
                return Err(Error::OutOfRange);
            }
            k = k + 1;
        }
        if self.spring_constants.len() != n - 1 {
            return Err(Error::SizeMismatch);
        }
        let mut q: usize = 0;
        while q < n - 1
            invariant
                0 <= q <= n - 1,
                n == self.images@.len(),
                self.spring_constants@.len() == n - 1,
                forall|p: int|
                    0 <= p < q ==> abs_i(#[trigger] self.spring_constants@[p] as int) <= SPRING_LIM,
            decreases n - 1 - q,
        {
            let kv: i64 = self.spring_constants[q];
            if kv > SPRING_LIM || kv < -SPRING_LIM {
                proof {
                    assert(abs_i(self.spring_constants@[q as int] as int) > SPRING_LIM);
                }
                return Err(Error::OutOfRange);
            }
            q = q + 1;
        }
        proof {
            assert forall|p: int| 0 <= p < ds@.len() implies ((#[trigger] ds@[p])@.len()
                == ds@[0]@.len() && all_bounded(ds@[p]@, 2 * WORK_LIM as int)) by {
                assert(self.images@[p].mol.atoms@.len() == self.images@[0].mol.atoms@.len());
            }
            assert(ds@[0]@.len() == natoms);
            assert forall|p: int| 0 <= p < ds@.len() implies (#[trigger] ds@[p])@ == chain_disp(
                self.images@,
                p,
            ) by {
                let this = self.images@[p].mol.positions_spec();
                let next = self.images@[p + 1].mol.positions_spec();
                assert(all_bounded(this, WORK_LIM as int));
                assert(all_bounded(next, WORK_LIM as int));
                assert(displacement_matches(ds@[p]@, this, next));
                assert forall|a: int| 0 <= a < this.len() implies #[trigger] ds@[p]@[a]
                    == chain_disp(self.images@, p)[a] by {
                    assert(crate::vector::v3_bounded(this[a], WORK_LIM as int));
                    assert(crate::vector::v3_bounded(next[a], WORK_LIM as int));
                }
                assert(ds@[p]@ =~= chain_disp(self.images@, p));
            }
            assert forall|i2: int| 0 <= i2 < n - 2 implies #[trigger] improved_combined(
                ds@,
                es@,
                i2,
            ) == chain_combined(self.images@, i2) by {
                assert(ds@[i2]@ == chain_disp(self.images@, i2));
                assert(ds@[i2 + 1]@ == chain_disp(self.images@, i2 + 1));
                assert(es@[i2] == cached_energies(self.images@)[i2]);
                assert(es@[i2 + 1] == cached_energies(self.images@)[i2 + 1]);
                assert(es@[i2 + 2] == cached_energies(self.images@)[i2 + 2]);
            }
        }
        let ts: Vec<Vec<V3>> = match tangent_vectors_improved(&ds, &es) {
            Ok(t) => t,
            Err(e) => {
                return Err(e);
            },
        };
        proof {
            assert forall|i2: int| 0 <= i2 < ts@.len() implies (all_bounded(
                (#[trigger] ts@[i2])@,
                SCALE as int,
            ) && ts@[i2]@.len() == natoms) by {
                assert(normalized_rel(improved_combined(ds@, es@, i2), ts@[i2]@));
            }
        }
        let f1: Vec<Vec<V3>> = spring_forces_parallel(&ds, &self.spring_constants, &ts);
        let f2: Vec<Vec<V3>> = real_forces_perpendicular(&fs, &ts);
        let nf: usize = n - 2;
        let mut fneb: Vec<Vec<V3>> = Vec::new();
        let mut p: usize = 0;
        while p < nf
            invariant
                0 <= p <= nf,
                nf == n - 2,
                f1@.len() == nf,
                f2@.len() == nf,
                forall|i: int|
                    0 <= i < nf ==> ((#[trigger] f1@[i])@.len() == (#[trigger] f2@[i])@.len()
                        && all_bounded(f1@[i]@, SPRINGF_LIM as int) && all_bounded(
                        f2@[i]@,
                        PERP_LIM as int,
                    )),
                fneb@.len() == p,
                forall|i: int|
                    0 <= i < p ==> ((#[trigger] fneb@[i])@.len() == f1@[i]@.len() && (forall|a: int|
                        0 <= a < f1@[i]@.len() ==> ((#[trigger] fneb@[i]@[a]).x == f1@[i]@[a].x
                            + f2@[i]@[a].x && fneb@[i]@[a].y == f1@[i]@[a].y + f2@[i]@[a].y
                            && fneb@[i]@[a].z == f1@[i]@[a].z + f2@[i]@[a].z))),
                forall|i: int| 0 <= i < p ==> all_bounded((#[trigger] fneb@[i])@, NEBF_LIM as int),
            decreases nf - p,
        {
            let v1: &Vec<V3> = &f1[p];
            let v2: &Vec<V3> = &f2[p];
            let m: usize = v1.len();
            let mut f: Vec<V3> = Vec::new();
            let mut a: usize = 0;
            while a < m
                invariant
                    0 <= a <= m,
                    m == v1@.len(),
                    m == v2@.len(),
                    all_bounded(v1@, SPRINGF_LIM as int),
                    all_bounded(v2@, PERP_LIM as int),
                    f@.len() == a,
                    forall|b: int|
                        0 <= b < a ==> ((#[trigger] f@[b]).x == v1@[b].x + v2@[b].x && f@[b].y
                            == v1@[b].y + v2@[b].y && f@[b].z == v1@[b].z + v2@[b].z),
                    forall|b: int|
                        0 <= b < a ==> crate::vector::v3_bounded(#[trigger] f@[b], NEBF_LIM as int),
                decreases m - a,
            {
                proof {
                    assert(crate::vector::v3_bounded(v1@[a as int], SPRINGF_LIM as int));
                    assert(crate::vector::v3_bounded(v2@[a as int], PERP_LIM as int));
                }
                let w1 = v1[a];
                let w2 = v2[a];
                f.push(V3 { x: w1.x + w2.x, y: w1.y + w2.y, z: w1.z + w2.z });
                a = a + 1;
            }
            fneb.push(f);
            p = p + 1;
        }
        if self.climbing {
            match fix_climbing_image(&mut fneb, &es, &fs, &ts, self.climbing_tol) {
                Ok(()) => {},
                Err(e) => {
                    return Err(e);
                },
            }
        }
        proof {
            assert(es@ == cached_energies(self.images@));
            assert forall|i2: int| 0 <= i2 < self.images@.len() implies ((#[trigger] self.images@[i2]).forces->Some_0@.len()
                == self.images@[0].mol.atoms@.len() && all_bounded(
                self.images@[i2].forces->Some_0@,
                WORK_LIM as int,
            )) by {
                assert(fs@[i2]@ == self.images@[i2].forces->Some_0@);
                assert(fs@[i2]@.len() == natoms && all_bounded(fs@[i2]@, WORK_LIM as int));
            }
            assert forall|i2: int| 0 <= i2 < self.images@.len() implies abs_i(
                #[trigger] cached_energies(self.images@)[i2] as int,
            ) <= WORK_LIM by {
                assert(abs_i(es@[i2] as int) <= WORK_LIM);
            }
            assert forall|i2: int| 0 <= i2 < self.images@.len() - 2 implies norm_seq(
                #[trigger] chain_combined(self.images@, i2),
            ) > 1000 by {
                assert(improved_combined(ds@, es@, i2) == chain_combined(self.images@, i2));
                assert(norm_seq(improved_combined(ds@, es@, i2)) > 1000);
            }
            assert(self.accepts());
            assert(neb_chain_rel(
                self.images@,
                self.spring_constants@,
                ds@,
                fs@,
                ts@,
                f1@,
                f2@,
            ));
            assert(neb_result_rel(
                fneb@,
                f1@,
                f2@,
                fs@,
                ts@,
                cached_energies(self.images@),
                self.climbing_tol as int,
                self.climbing,
            ));
        }
        Ok(fneb)
    }
}

/// Law: a chain with exactly one peak has peak count one, so the
/// climbing-image scan accepts it and must return that peak.
pub proof fn lemma_unique_peak(e: Seq<i64>, tol: int, k: int)
    requires
        e.len() >= 3,
        is_peak(e, k, tol),
        forall|j: int| #[trigger] is_peak(e, j, tol) ==> j == k,
    ensures
        peak_count(e, tol) == 1,
{
    lemma_unique_peak_upto(e, tol, k, e.len() - 1);
}

proof fn lemma_unique_peak_upto(e: Seq<i64>, tol: int, k: int, m: int)
    requires
        e.len() >= 3,
        1 <= m <= e.len() - 1,
        is_peak(e, k, tol),
        forall|j: int| #[trigger] is_peak(e, j, tol) ==> j == k,
    ensures
        peak_count_upto(e, tol, m) == if k < m {
            1int
        } else {
            0int
        },
    decreases m,
{
    if m > 1 {
        lemma_unique_peak_upto(e, tol, k, m - 1);
    }
}

/// Law: a chain with two distinct peaks has peak count at least two,
/// so the climbing-image scan must reject it as ambiguous.
pub proof fn lemma_two_peaks_ambiguous(e: Seq<i64>, tol: int, k1: int, k2: int)
    requires
        e.len() >= 3,
        is_peak(e, k1, tol),
        is_peak(e, k2, tol),
        k1 < k2,
    ensures
        peak_count(e, tol) >= 2,
{
    lemma_two_peaks_upto(e, tol, k1, k2, e.len() - 1);
}

proof fn lemma_two_peaks_upto(e: Seq<i64>, tol: int, k1: int, k2: int, m: int)
    requires
        e.len() >= 3,
        1 <= m <= e.len() - 1,
        is_peak(e, k1, tol),
        is_peak(e, k2, tol),
        k1 < k2,
    ensures
        peak_count_upto(e, tol, m) >= (if k1 < m {
            1int
        } else {
            0int
        }) + (if k2 < m {
            1int
        } else {
            0int
        }),
    decreases m,
{
    if m > 1 {
        lemma_two_peaks_upto(e, tol, k1, k2, m - 1);
    }
}

} // verus!
