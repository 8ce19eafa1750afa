//! Convex hulls of planar point sets by quickhull, with memoized recursion.
use vstd::prelude::*;

pub mod geometry;
pub mod hull;
pub mod names;
pub mod engine;
pub mod laws;
pub mod sequence;
pub mod harness;
pub mod tree;
pub mod extremality;

verus! {

} // verus!
