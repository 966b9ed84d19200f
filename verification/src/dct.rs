use crate::consts::BLOCK_SIZE_8X8;
use crate::error::DctError;
use crate::layout::{grid_blocks, lemma_block_size_bounds, spec_all_blocks, spec_block};
use crate::pgm_parse::PGMImage;
use vstd::prelude::*;

verus! {

/// The 8x8 quantization table defined by the JPEG standard for luminance,
/// row-major: the divisor for the coefficient at frequency pair (u, v)
/// stands at flat position u * 8 + v.
pub open spec fn spec_quantization_table() -> Seq<u8> {
    seq![
        16u8, 11u8, 10u8, 16u8, 24u8, 40u8, 51u8, 61u8,
        12u8, 12u8, 14u8, 19u8, 26u8, 58u8, 60u8, 55u8,
        14u8, 13u8, 16u8, 24u8, 40u8, 57u8, 69u8, 56u8,
        14u8, 17u8, 22u8, 29u8, 51u8, 87u8, 80u8, 62u8,
        18u8, 22u8, 37u8, 56u8, 68u8, 109u8, 103u8, 77u8,
        24u8, 35u8, 55u8, 64u8, 81u8, 104u8, 113u8, 92u8,
        49u8, 64u8, 78u8, 87u8, 103u8, 121u8, 120u8, 101u8,
        72u8, 92u8, 95u8, 98u8, 112u8, 100u8, 103u8, 99u8,
    ]
}

/// quantization_table_for hands out the divisor table for the given block
/// size. Only the 8x8 table exists; any other block size is a configuration
/// error.
pub fn quantization_table_for(block_size: usize) -> (r: Result<Vec<u8>, DctError>)
    ensures
        match r {
            Ok(t) => block_size == BLOCK_SIZE_8X8 && t@ == spec_quantization_table(),
            Err(e) => e == DctError::UnsupportedBlockSize && block_size != BLOCK_SIZE_8X8,
        },
{
    if block_size != BLOCK_SIZE_8X8 {
        return Err(DctError::UnsupportedBlockSize);
    }
    let table: Vec<u8> = vec![
        16u8, 11u8, 10u8, 16u8, 24u8, 40u8, 51u8, 61u8,
        12u8, 12u8, 14u8, 19u8, 26u8, 58u8, 60u8, 55u8,
        14u8, 13u8, 16u8, 24u8, 40u8, 57u8, 69u8, 56u8,
        14u8, 17u8, 22u8, 29u8, 51u8, 87u8, 80u8, 62u8,
        18u8, 22u8, 37u8, 56u8, 68u8, 109u8, 103u8, 77u8,
        24u8, 35u8, 55u8, 64u8, 81u8, 104u8, 113u8, 92u8,
        49u8, 64u8, 78u8, 87u8, 103u8, 121u8, 120u8, 101u8,
        72u8, 92u8, 95u8, 98u8, 112u8, 100u8, 103u8, 99u8,
    ];
    proof {
        assert(table@ =~= spec_quantization_table());
    }
    Ok(table)
}

/// partition_blocks cuts the raster into its blocks, in ascending block-index
/// order, for the transform to consume one by one. Either every block is
/// produced or none is: a block size that does not evenly divide both
/// dimensions is rejected before any block is extracted.
pub fn partition_blocks(img: &PGMImage, block_size: usize) -> (r: Result<Vec<Vec<u8>>, DctError>)
    requires
        img.wf(),
    ensures
        match r {
            Ok(blocks) => {
                &&& 0 < block_size
                &&& img.width % block_size == 0
                &&& img.height % block_size == 0
                &&& blocks@.len() == grid_blocks(
                    img.width as nat,
                    img.height as nat,
                    block_size as nat,
                )
                &&& forall|i: int|
                    0 <= i < blocks@.len() ==> blocks@[i]@ == spec_block(
                        img.image_u8@,
                        img.width as nat,
                        block_size as nat,
                        i as nat,
                    )
                &&& blocks@.map_values(|b: Vec<u8>| b@) == spec_all_blocks(
                    img.image_u8@,
                    img.width as nat,
                    img.height as nat,
                    block_size as nat,
                )
            },
            Err(e) => {
                &&& e == DctError::InvalidBlockSize
                &&& (block_size == 0 || img.width % block_size != 0 || img.height % block_size
                    != 0)
            },
        },
{
    if block_size == 0 || img.width % block_size != 0 || img.height % block_size != 0 {
        return Err(DctError::InvalidBlockSize);
    }
    proof {
        lemma_block_size_bounds(img.width as nat, img.height as nat, block_size as nat);
    }
    // Reading the sample count as a usize bounds width * height by usize::MAX.
    let total: usize = img.image_u8.len();
    let num_blocks = img.num_blocks(block_size);
    let mut blocks: Vec<Vec<u8>> = Vec::new();
    let mut i: usize = 0;
    while i < num_blocks
        invariant
            img.wf(),
            0 < block_size,
            img.width % block_size == 0,
            img.height % block_size == 0,
            num_blocks == grid_blocks(img.width as nat, img.height as nat, block_size as nat),
            i <= num_blocks,
            blocks@.len() == i,
            forall|j: int|
                0 <= j < blocks@.len() ==> blocks@[j]@ == spec_block(
                    img.image_u8@,
                    img.width as nat,
                    block_size as nat,
                    j as nat,
                ),
        decreases num_blocks - i,
    {
        let block = match img.get_block(block_size, i) {
            Ok(b) => b,
            Err(e) => {
                proof {
                    assert(false);
                }
                return Err(e);
            },
        };
        blocks.push(block);
        i = i + 1;
    }
    proof {
        assert(blocks@.map_values(|b: Vec<u8>| b@) =~= spec_all_blocks(
            img.image_u8@,
            img.width as nat,
            img.height as nat,
            block_size as nat,
        ));
    }
    Ok(blocks)
}

} // verus!
