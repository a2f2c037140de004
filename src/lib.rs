use vstd::prelude::*;

pub mod binary;
pub mod value;
pub mod fixed_string;
pub mod column;
pub mod block;
pub mod chunk_iterator;
pub mod round_trip;

verus! {

} // verus!
