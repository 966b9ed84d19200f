use vstd::prelude::*;

verus! {

/// Failures of the block-transform pipeline. All of them are deterministic,
/// input-dependent configuration or indexing errors; none is transient.
#[derive(Clone, Copy, Debug, PartialEq, Eq, Structural)]
pub enum DctError {
    /// The raster's dimensions are not exact multiples of the block size,
    /// so the grid cannot be partitioned into whole blocks.
    InvalidBlockSize,
    /// A block index at or beyond the number of blocks in the grid.
    BlockIndexOutOfRange,
    /// The quantizer was asked for a block size whose divisor table shape
    /// is undefined (only 8x8 tables exist).
    UnsupportedBlockSize,
}

} // verus!
