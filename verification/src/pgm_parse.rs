use crate::error::DctError;
use crate::layout::{
    block_sample_pos, block_start, grid_blocks, lemma_block_pos_bound,
    lemma_block_size_bounds, lemma_flat_index_decompose, spec_block,
};
use vstd::prelude::*;

verus! {

/// A grayscale raster: height rows of width samples, in order from top to
/// bottom and from left to right within a row, one byte per sample.
pub struct PGMImage {
    /// Number of samples in each row.
    pub width: usize,
    /// Number of rows.
    pub height: usize,
    /// The largest gray value the source may hold; more than zero, and at
    /// most 255, since each sample is a single byte.
    pub maxval: u16,
    /// The raster samples, width * height of them, row-major.
    pub image_u8: Vec<u8>,
}

impl PGMImage {
    /// The raster's structural invariant: positive dimensions, a single-byte
    /// maximum gray value, and exactly one sample per grid position.
    pub open spec fn wf(&self) -> bool {
        &&& 0 < self.width
        &&& 0 < self.height
        &&& 0 < self.maxval <= 255
        &&& self.image_u8@.len() == self.width * self.height
    }

    /// num_blocks returns the number of block_size x block_size blocks in
    /// this image: width * height / block_size^2. The quotient is exact only
    /// when the block size divides both dimensions; partitioning checks that
    /// separately.
    pub fn num_blocks(&self, block_size: usize) -> (n: usize)
        requires
            self.wf(),
            0 < block_size,
            block_size * block_size <= usize::MAX,
        ensures
            n == grid_blocks(self.width as nat, self.height as nat, block_size as nat),
    {
        let total: usize = self.image_u8.len();
        assert(0 < block_size * block_size) by (nonlinear_arith)
            requires
                0 < block_size,
        ;
        total / (block_size * block_size)
    }

    /// translate_index maps a block index to the flat raster offset of that
    /// block's top-left sample, in row-major block order: the block sits
    /// block_index / (width / block_size) block rows down and
    /// block_index % (width / block_size) block columns across.
    pub fn translate_index(&self, block_size: usize, block_index: usize) -> (start: usize)
        requires
            self.wf(),
            0 < block_size,
            self.width % block_size == 0,
            self.height % block_size == 0,
            block_index < grid_blocks(self.width as nat, self.height as nat, block_size as nat),
        ensures
            start == block_start(self.width as nat, block_size as nat, block_index as nat),
            start < self.width * self.height,
    {
        proof {
            lemma_block_size_bounds(self.width as nat, self.height as nat, block_size as nat);
            lemma_block_pos_bound(
                self.width as nat,
                self.height as nat,
                block_size as nat,
                block_index as nat,
                0,
                0,
            );
        }
        // Reading the sample count as a usize bounds width * height by usize::MAX.
        let total: usize = self.image_u8.len();
        let bpr = self.width / block_size;
        let block_row = block_index / bpr;
        let block_col = block_index % bpr;
        proof {
            assert(block_start(self.width as nat, block_size as nat, block_index as nat) == (
            block_row as nat) * (block_size as nat) * (self.width as nat) + (block_col as nat) * (
            block_size as nat));
            assert(block_row * block_size <= block_row * block_size * self.width)
                by (nonlinear_arith)
                requires
                    0 <= block_row,
                    0 <= block_size,
                    1 <= self.width,
            ;
        }
        block_row * block_size * self.width + block_col * block_size
    }

    /// get_block returns the block at the given block index: the
    /// block_size x block_size square of samples whose top-left corner sits
    /// at the offset translate_index gives, gathered row by row. A 512x512
    /// image, for example, holds 4096 8x8 blocks in total.
    pub fn get_block(&self, block_size: usize, block_index: usize) -> (r: Result<Vec<u8>, DctError>)
        requires
            self.wf(),
            0 < block_size,
            self.width % block_size == 0,
            self.height % block_size == 0,
        ensures
            match r {
                Ok(b) => block_index < grid_blocks(
                    self.width as nat,
                    self.height as nat,
                    block_size as nat,
                ) && b@ == spec_block(
                    self.image_u8@,
                    self.width as nat,
                    block_size as nat,
                    block_index as nat,
                ),
                Err(e) => e == DctError::BlockIndexOutOfRange && block_index >= grid_blocks(
                    self.width as nat,
                    self.height as nat,
                    block_size as nat,
                ),
            },
    {
        let ghost w = self.width as nat;
        let ghost h = self.height as nat;
        let ghost bs = block_size as nat;
        let ghost bi = block_index as nat;
        proof {
            lemma_block_size_bounds(w, h, bs);
        }
        let total: usize = self.image_u8.len();
        let num_blocks = self.num_blocks(block_size);
        if block_index >= num_blocks {
            return Err(DctError::BlockIndexOutOfRange);
        }
        let start = self.translate_index(block_size, block_index);
        let mut ret: Vec<u8> = Vec::new();
        for r in 0..block_size
            invariant
                self.wf(),
                0 < block_size,
                self.width % block_size == 0,
                self.height % block_size == 0,
                w == self.width as nat && h == self.height as nat && bs == block_size as nat && bi
                    == block_index as nat,
                bi < grid_blocks(w, h, bs),
                start == block_start(w, bs, bi),
                total == self.image_u8@.len(),
                ret@.len() == r * block_size,
                forall|k: int|
                    0 <= k < ret@.len() ==> ret@[k] == self.image_u8@[block_sample_pos(
                        w,
                        bs,
                        bi,
                        k as nat,
                    ) as int],
        {
            for c in 0..block_size
                invariant
                    self.wf(),
                    0 < block_size,
                    self.width % block_size == 0,
                    self.height % block_size == 0,
                    w == self.width as nat && h == self.height as nat && bs == block_size as nat
                        && bi == block_index as nat,
                    bi < grid_blocks(w, h, bs),
                    start == block_start(w, bs, bi),
                    total == self.image_u8@.len(),
                    r < block_size,
                    ret@.len() == r * block_size + c,
                    forall|k: int|
                        0 <= k < ret@.len() ==> ret@[k] == self.image_u8@[block_sample_pos(
                            w,
                            bs,
                            bi,
                            k as nat,
                        ) as int],
            {
                proof {
                    lemma_block_pos_bound(w, h, bs, bi, r as nat, c as nat);
                    lemma_flat_index_decompose(bs, r as nat, c as nat);
                    assert(block_sample_pos(w, bs, bi, (r * block_size + c) as nat) == block_start(
                        w,
                        bs,
                        bi,
                    ) + (r as nat) * w + (c as nat)) by {
                        assert(((r * block_size + c) as nat) / bs == r as nat);
                        assert(((r * block_size + c) as nat) % bs == c as nat);
                    }
                }
                let idx = start + r * self.width + c;
                ret.push(self.image_u8[idx]);
            }
            proof {
                assert((r + 1) * block_size == r * block_size + block_size) by (nonlinear_arith);
            }
        }
        proof {
            assert(ret@ =~= spec_block(self.image_u8@, w, bs, bi));
        }
        Ok(ret)
    }
}

} // verus!
