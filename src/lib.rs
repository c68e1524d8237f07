use vstd::prelude::*;

pub mod checkpoint;
pub mod download;
pub mod segment;
pub mod store;
pub mod sync;

verus! {

} // verus!
