//! Per-atom 3-vectors and the dot products and norms taken over whole
//! arrays of them.
//!
//! Forces, velocities, positions and displacements are all `Vec<V3>`:
//! one fixed-point 3-vector per atom.  The global dot product of two
//! such arrays is the sum over all atoms and all three components; the
//! global norm is the integer square root of the dot product of an
//! array with itself, which is again a raw fixed-point scalar.

use vstd::prelude::*;
use crate::num::{abs_i, div_tz, isqrt, isqrt_spec, lemma_div_tz_abs, lemma_isqrt_bounds,
    lemma_isqrt_le, lemma_mul_abs, lemma_sq_le_isqrt};

verus! {

/// A fixed-point vector with one component per cartesian axis.
#[derive(Clone, Copy, Debug, PartialEq, Eq, Structural)]
pub struct V3 {
    pub x: i64,
    pub y: i64,
    pub z: i64,
}

impl V3 {
    pub open spec fn spec_zero() -> V3 {
        V3 { x: 0, y: 0, z: 0 }
    }

    pub fn zero() -> (r: V3)
        ensures
            r == V3::spec_zero(),
    {
        V3 { x: 0, y: 0, z: 0 }
    }
}

/// The largest raw component magnitude the dot-product routines accept.
pub const DOT_LIM: i64 = 0x2000_0000_0000;

/// The largest number of atoms the dot-product routines accept.
pub const N_MAX: usize = 0x10_0000;

pub open spec fn v3_dot(a: V3, b: V3) -> int {
    a.x * b.x + a.y * b.y + a.z * b.z
}

pub open spec fn v3_norm_sq(a: V3) -> int {
    v3_dot(a, a)
}

pub open spec fn v3_bounded(v: V3, m: int) -> bool {
    abs_i(v.x as int) <= m && abs_i(v.y as int) <= m && abs_i(v.z as int) <= m
}

pub open spec fn all_bounded(s: Seq<V3>, m: int) -> bool {
    forall|i: int| 0 <= i < s.len() ==> #[trigger] v3_bounded(s[i], m)
}

/// A bound on every component is also any looser bound.
pub proof fn lemma_all_bounded_widen(s: Seq<V3>, m1: int, m2: int)
    requires
        all_bounded(s, m1),
        m1 <= m2,
    ensures
        all_bounded(s, m2),
{
    assert forall|i: int| 0 <= i < s.len() implies #[trigger] v3_bounded(s[i], m2) by {
        assert(v3_bounded(s[i], m1));
    }
}

/// Sum over all atoms of the componentwise products.
pub open spec fn dot_seq(a: Seq<V3>, b: Seq<V3>) -> int
    recommends
        a.len() == b.len(),
    decreases a.len(),
{
    if a.len() == 0 {
        0
    } else {
        dot_seq(a.drop_last(), b.drop_last()) + v3_dot(a.last(), b.last())
    }
}

pub open spec fn norm_sq_seq(a: Seq<V3>) -> int {
    dot_seq(a, a)
}

/// Raw fixed-point norm of a whole array: because a raw value is the
/// true value times the scale, the square root of the raw sum of
/// squares is itself the raw norm.
pub open spec fn norm_seq(a: Seq<V3>) -> int {
    isqrt_spec(norm_sq_seq(a))
}

pub proof fn lemma_v3_dot_bound(a: V3, b: V3, ma: int, mb: int)
    requires
        v3_bounded(a, ma),
        v3_bounded(b, mb),
    ensures
        abs_i(v3_dot(a, b)) <= 3 * ma * mb,
{
    lemma_mul_abs(a.x as int, b.x as int, ma, mb);
    lemma_mul_abs(a.y as int, b.y as int, ma, mb);
    lemma_mul_abs(a.z as int, b.z as int, ma, mb);
    assert(3 * ma * mb == ma * mb + ma * mb + ma * mb) by (nonlinear_arith) {}
}

pub proof fn lemma_v3_norm_sq_bounds(a: V3)
    ensures
        v3_norm_sq(a) >= 0,
        a.x * a.x <= v3_norm_sq(a),
        a.y * a.y <= v3_norm_sq(a),
        a.z * a.z <= v3_norm_sq(a),
{
    assert(a.x * a.x >= 0 && a.y * a.y >= 0 && a.z * a.z >= 0) by (nonlinear_arith) {}
}

pub proof fn lemma_dot_seq_bound(a: Seq<V3>, b: Seq<V3>, ma: int, mb: int)
    requires
        a.len() == b.len(),
        all_bounded(a, ma),
        all_bounded(b, mb),
        ma >= 0,
        mb >= 0,
    ensures
        abs_i(dot_seq(a, b)) <= 3 * a.len() * ma * mb,
    decreases a.len(),
{
    if a.len() > 0 {
        lemma_dot_seq_bound(a.drop_last(), b.drop_last(), ma, mb);
        lemma_v3_dot_bound(a.last(), b.last(), ma, mb);
        let n = a.len() as int;
        assert(3 * (n - 1) * ma * mb + 3 * ma * mb == 3 * n * ma * mb) by (nonlinear_arith) {}
    }
}

pub proof fn lemma_norm_sq_seq_nonneg(a: Seq<V3>)
    ensures
        norm_sq_seq(a) >= 0,
    decreases a.len(),
{
    if a.len() > 0 {
        lemma_norm_sq_seq_nonneg(a.drop_last());
        lemma_v3_norm_sq_bounds(a.last());
    }
}

/// Each atom's squared norm is part of the global sum of squares.
pub proof fn lemma_norm_sq_seq_elem(a: Seq<V3>, i: int)
    requires
        0 <= i < a.len(),
    ensures
        v3_norm_sq(a[i]) <= norm_sq_seq(a),
    decreases a.len(),
{
    lemma_norm_sq_seq_nonneg(a.drop_last());
    lemma_v3_norm_sq_bounds(a.last());
    if i == a.len() - 1 {
    } else {
        lemma_norm_sq_seq_elem(a.drop_last(), i);
    }
}

/// Every component's magnitude is bounded by the global norm.
pub proof fn lemma_component_le_norm(a: Seq<V3>, i: int)
    requires
        0 <= i < a.len(),
    ensures
        abs_i(a[i].x as int) <= norm_seq(a),
        abs_i(a[i].y as int) <= norm_seq(a),
        abs_i(a[i].z as int) <= norm_seq(a),
        norm_seq(a) >= 0,
{
    lemma_norm_sq_seq_elem(a, i);
    lemma_v3_norm_sq_bounds(a[i]);
    lemma_norm_sq_seq_nonneg(a);
    lemma_sq_le_isqrt(norm_sq_seq(a), a[i].x as int);
    lemma_sq_le_isqrt(norm_sq_seq(a), a[i].y as int);
    lemma_sq_le_isqrt(norm_sq_seq(a), a[i].z as int);
    lemma_isqrt_bounds(norm_sq_seq(a));
}

/// A concrete bound on an array's global norm from a bound on its
/// components.
pub proof fn lemma_norm_seq_bound(a: Seq<V3>, m: int, b: int)
    requires
        a.len() <= N_MAX,
        all_bounded(a, m),
        m >= 0,
        b >= 0,
        3 * (N_MAX as int) * m * m < (b + 1) * (b + 1),
    ensures
        0 <= norm_seq(a) <= b,
{
    lemma_dot_seq_bound(a, a, m, m);
    lemma_norm_sq_seq_nonneg(a);
    assert(3 * a.len() * m * m <= 3 * (N_MAX as int) * m * m) by (nonlinear_arith)
        requires
            0 <= a.len() <= (N_MAX as int),
            m >= 0,
    {}
    lemma_isqrt_le(norm_sq_seq(a), b);
    lemma_isqrt_bounds(norm_sq_seq(a));
}

/// The concrete instance used throughout: components within the
/// working range keep the global norm under `2^51`.
pub proof fn lemma_norm_work_bound(a: Seq<V3>)
    requires
        a.len() <= N_MAX,
        all_bounded(a, crate::num::WORK_LIM as int),
    ensures
        0 <= norm_seq(a) < 0x8_0000_0000_0000,
{
    assert(3 * (N_MAX as int) * (crate::num::WORK_LIM as int) * (crate::num::WORK_LIM as int)
        < 0x8_0000_0000_0000 * 0x8_0000_0000_0000) by (nonlinear_arith) {}
    lemma_norm_seq_bound(a, crate::num::WORK_LIM as int, 0x8_0000_0000_0000 - 1);
}

pub proof fn lemma_dot_seq_take_step(a: Seq<V3>, b: Seq<V3>, i: int)
    requires
        a.len() == b.len(),
        0 <= i < a.len(),
    ensures
        dot_seq(a.take(i + 1), b.take(i + 1)) == dot_seq(a.take(i), b.take(i)) + v3_dot(
            a[i],
            b[i],
        ),
{
    assert(a.take(i + 1).drop_last() =~= a.take(i));
    assert(b.take(i + 1).drop_last() =~= b.take(i));
    assert(a.take(i + 1).last() == a[i]);
    assert(b.take(i + 1).last() == b[i]);
}

/// A prefix never exceeds the whole array's sum of squares.
pub proof fn lemma_norm_sq_prefix_le(s: Seq<V3>, i: int)
    requires
        0 <= i <= s.len(),
    ensures
        norm_sq_seq(s.take(i)) <= norm_sq_seq(s),
    decreases s.len() - i,
{
    if i == s.len() {
        assert(s.take(i) =~= s);
    } else {
        lemma_norm_sq_prefix_le(s, i + 1);
        lemma_dot_seq_take_step(s, s, i);
        lemma_v3_norm_sq_bounds(s[i]);
    }
}

/// Global dot product of two per-atom arrays, exactly as `dot_seq`
/// states it.
pub fn dot(a: &Vec<V3>, b: &Vec<V3>) -> (r: i128)
    requires
        a@.len() == b@.len(),
        a@.len() <= N_MAX,
        all_bounded(a@, DOT_LIM as int),
        all_bounded(b@, DOT_LIM as int),
    ensures
        r == dot_seq(a@, b@),
        abs_i(r as int) <= 3 * a@.len() * (DOT_LIM as int) * (DOT_LIM as int),
{
    let n: usize = a.len();
    let mut acc: i128 = 0;
    let mut i: usize = 0;
    while i < n
        invariant
            0 <= i <= n,
            n == a@.len() && n == b@.len(),
            n <= N_MAX,
            all_bounded(a@, DOT_LIM as int),
            all_bounded(b@, DOT_LIM as int),
            acc == dot_seq(a@.take(i as int), b@.take(i as int)),
            abs_i(acc as int) <= 3 * i * (DOT_LIM as int) * (DOT_LIM as int),
        decreases n - i,
    {
        proof {
            assert(v3_bounded(a@[i as int], DOT_LIM as int));
            assert(v3_bounded(b@[i as int], DOT_LIM as int));
            lemma_dot_seq_take_step(a@, b@, i as int);
            lemma_v3_dot_bound(a@[i as int], b@[i as int], DOT_LIM as int, DOT_LIM as int);
            lemma_mul_abs(a@[i as int].x as int, b@[i as int].x as int, DOT_LIM as int, DOT_LIM as int);
            lemma_mul_abs(a@[i as int].y as int, b@[i as int].y as int, DOT_LIM as int, DOT_LIM as int);
            lemma_mul_abs(a@[i as int].z as int, b@[i as int].z as int, DOT_LIM as int, DOT_LIM as int);
        }
        let t: i128 = (a[i].x as i128) * (b[i].x as i128) + (a[i].y as i128) * (b[i].y as i128)
            + (a[i].z as i128) * (b[i].z as i128);
        acc = acc + t;
        i = i + 1;
    }
    proof {
        assert(a@.take(n as int) =~= a@);
        assert(b@.take(n as int) =~= b@);
    }
    acc
}

/// An element-for-element copy of a per-atom array.
pub fn copy_vec(v: &Vec<V3>) -> (r: Vec<V3>)
    ensures
        r@ == v@,
{
    let n: usize = v.len();
    let mut r: Vec<V3> = Vec::new();
    let mut i: usize = 0;
    while i < n
        invariant
            0 <= i <= n,
            n == v@.len(),
            r@ =~= v@.take(i as int),
        decreases n - i,
    {
        r.push(v[i]);
        i = i + 1;
    }
    proof {
        assert(v@.take(n as int) =~= v@);
    }
    r
}

/// Move every atom by its entry of a displacement slice:
/// `p[i] = p[i] + d[shift + i]`.
pub fn apply_displacement_slice(positions: &mut Vec<V3>, displacements: &Vec<V3>, shift: usize)
    requires
        shift + old(positions)@.len() <= displacements@.len(),
        all_bounded(old(positions)@, crate::num::WORK_LIM as int),
        all_bounded(displacements@, crate::num::WORK_LIM as int),
    ensures
        final(positions)@.len() == old(positions)@.len(),
        forall|i: int|
            0 <= i < old(positions)@.len() ==> ((#[trigger] final(positions)@[i]).x == old(
                positions,
            )@[i].x + displacements@[shift + i].x && final(positions)@[i].y == old(
                positions,
            )@[i].y + displacements@[shift + i].y && final(positions)@[i].z == old(
                positions,
            )@[i].z + displacements@[shift + i].z),
        all_bounded(final(positions)@, 2 * crate::num::WORK_LIM as int),
{
    let n: usize = positions.len();
    let dlen: usize = displacements.len();
    let mut i: usize = 0;
    while i < n
        invariant
            0 <= i <= n,
            positions@.len() == n,
            old(positions)@.len() == n,
            shift + n <= displacements@.len(),
            dlen == displacements@.len(),
            all_bounded(old(positions)@, crate::num::WORK_LIM as int),
            all_bounded(displacements@, crate::num::WORK_LIM as int),
            forall|j: int| i <= j < n ==> #[trigger] positions@[j] == old(positions)@[j],
            forall|j: int|
                0 <= j < i ==> ((#[trigger] positions@[j]).x == old(positions)@[j].x
                    + displacements@[shift + j].x && positions@[j].y == old(positions)@[j].y
                    + displacements@[shift + j].y && positions@[j].z == old(positions)@[j].z
                    + displacements@[shift + j].z),
            forall|j: int|
                0 <= j < i ==> v3_bounded(#[trigger] positions@[j], 2 * crate::num::WORK_LIM as int),
        decreases n - i,
    {
        proof {
            assert(positions@[i as int] == old(positions)@[i as int]);
            assert(v3_bounded(old(positions)@[i as int], crate::num::WORK_LIM as int));
            assert(v3_bounded(displacements@[shift + i as int], crate::num::WORK_LIM as int));
        }
        let p = positions[i];
        let d = displacements[shift + i];
        positions.set(i, V3 { x: p.x + d.x, y: p.y + d.y, z: p.z + d.z });
        i = i + 1;
    }
}

/// Move every atom by its displacement: `p[i] = p[i] + d[i]`.
pub fn apply_displacements(positions: &mut Vec<V3>, displacements: &Vec<V3>)
    requires
        old(positions)@.len() == displacements@.len(),
        all_bounded(old(positions)@, crate::num::WORK_LIM as int),
        all_bounded(displacements@, crate::num::WORK_LIM as int),
    ensures
        final(positions)@.len() == old(positions)@.len(),
        forall|i: int|
            0 <= i < old(positions)@.len() ==> ((#[trigger] final(positions)@[i]).x == old(
                positions,
            )@[i].x + displacements@[i].x && final(positions)@[i].y == old(positions)@[i].y
                + displacements@[i].y && final(positions)@[i].z == old(positions)@[i].z
                + displacements@[i].z),
        all_bounded(final(positions)@, 2 * crate::num::WORK_LIM as int),
{
    apply_displacement_slice(positions, displacements, 0);
}

/// Runtime test that every component's magnitude is within `lim`.
pub fn check_bounded(v: &Vec<V3>, lim: i64) -> (r: bool)
    requires
        lim >= 0,
    ensures
        r == all_bounded(v@, lim as int),
{
    let n: usize = v.len();
    let mut i: usize = 0;
    while i < n
        invariant
            0 <= i <= n,
            n == v@.len(),
            lim >= 0,
            forall|j: int| 0 <= j < i ==> #[trigger] v3_bounded(v@[j], lim as int),
        decreases n - i,
    {
        let a = v[i];
        if a.x > lim || a.x < -lim || a.y > lim || a.y < -lim || a.z > lim || a.z < -lim {
            proof {
                assert(!v3_bounded(v@[i as int], lim as int));
            }
            return false;
        }
        i = i + 1;
    }
    true
}

/// Raw global norm of a per-atom array: `isqrt` of its sum of squares.
pub fn norm_raw(a: &Vec<V3>) -> (r: i64)
    requires
        a@.len() <= N_MAX,
        all_bounded(a@, DOT_LIM as int),
    ensures
        r == norm_seq(a@),
        0 <= r && r < 0x100_0000_0000_0000,
{
    let ss: i128 = dot(a, a);
    proof {
        lemma_norm_sq_seq_nonneg(a@);
        lemma_isqrt_le(ss as int, 0x100_0000_0000_0000 - 1);
        lemma_isqrt_bounds(ss as int);
    }
    let r: u128 = isqrt(ss as u128);
    r as i64
}

} // verus!
