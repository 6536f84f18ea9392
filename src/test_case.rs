//! Descriptors of test cases as the scheduler sees them.
use vstd::prelude::*;

verus! {

/// Identifies a worker actor. Assigned on spawn, never reused.
pub type WorkerId = u64;

/// Identifies a reducer actor. Assigned on spawn, never reused.
pub type ReducerId = u64;

/// A candidate variant that has not been judged yet.
///
/// `id` is the caller's handle for the candidate's file and provenance; the
/// scheduler reads only `size`.
#[derive(Clone, Copy, Debug, PartialEq, Eq, Structural)]
pub struct Potential {
    pub id: u64,
    pub size: u64,
}

/// A test case that has been judged interesting.
///
/// Two values are the same seed exactly when they are equal.
#[derive(Clone, Copy, Debug, PartialEq, Eq, Structural)]
pub struct Interesting {
    pub id: u64,
    pub size: u64,
}

} // verus!
