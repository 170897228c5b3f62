//! The error taxonomy of the optimization engine.
//!
//! Model failures abort a run and are propagated unchanged; malformed
//! chains and missing records are reported with the offending image
//! index; an ambiguous climbing-image scan reports how many candidate
//! peaks it found.  Running out of cycles is *not* an error and is
//! reported through the run report instead.

use vstd::prelude::*;

verus! {

#[derive(Clone, Copy, Debug, PartialEq, Eq, Structural)]
pub enum Error {
    /// The energy/force model itself failed; always fatal to the run.
    Model,
    /// An image (or the lone structure, as image 0) has no cached energy.
    MissingEnergy { image: usize },
    /// An image (or the lone structure, as image 0) has no cached forces.
    MissingForces { image: usize },
    /// A chain needs at least three images, endpoints included.
    TooFewImages { count: usize },
    /// An image's atom count differs from image 0's.
    AtomCountMismatch { image: usize },
    /// An image's element ordering differs from image 0's.
    ElementMismatch { image: usize },
    /// The climbing-image scan found no unique energy peak.
    AmbiguousClimbingImage { count: usize },
    /// A tangent could not be normalized: the weighted displacement at
    /// this image is (nearly) the zero vector.
    DegenerateTangent { image: usize },
    /// Two per-atom arrays that must pair up have different lengths.
    SizeMismatch,
    /// A beta scheme's denominator vanished.
    DegenerateBeta,
    /// A scalar exceeded the fixed-point working range.
    OutOfRange,
}

} // verus!
