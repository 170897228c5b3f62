//! Geometry optimization of atomic structures against a pluggable
//! energy/force model.
//!
//! Every scalar carried by this crate is a fixed-point number: a signed
//! count of millionths held in an `i64` (see [`num::SCALE`]).  All of the
//! numerical algorithms — the FIRE relaxation engine, the conjugate
//! gradient strategy and the nudged elastic band method — are specified
//! and verified exactly over that arithmetic.

pub mod error;
pub mod models;
pub mod num;
pub mod optimization;
pub mod vector;

use vstd::prelude::*;

verus! {

} // verus!
