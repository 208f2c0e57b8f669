//! Sequence and coordinate logic of a V(D)J recombination model: nucleotide strings and
//! gene templates, range-indexed arrays, the coordinate enumeration of the inference, the
//! D-J aggregation's bookkeeping, and the assembly of generated CDR3s.
use vstd::prelude::*;

pub mod features;
pub mod generation;
pub mod inference;
pub mod range_array;
pub mod sequence;
pub mod utils;
pub mod vdj;
pub mod v_dj;

verus! {

} // verus!
