//! Abstract values for pointer inference over binaries: a value is unknown, a pointer
//! into one of several abstract memory objects with an offset into each, or a plain
//! bit-vector.
use vstd::prelude::*;

pub mod bitvector;
pub mod data;
pub mod identifier;
pub mod pointer;

verus! {

} // verus!
