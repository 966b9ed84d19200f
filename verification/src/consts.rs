use vstd::prelude::*;

verus! {

/// The block side length of the transform pipeline: blocks are 8x8 samples.
pub const BLOCK_SIZE_8X8: usize = 8;

} // verus!
