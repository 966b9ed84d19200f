use blockdct::consts::BLOCK_SIZE_8X8;
use blockdct::dct::{partition_blocks, quantization_table_for};
use blockdct::error::DctError;
use blockdct::pgm_parse::PGMImage;

fn ramp_image_16x16() -> PGMImage {
    let mut samples: Vec<u8> = Vec::new();
    let mut i: usize = 0;
    while i < 16 * 16 {
        samples.push(i as u8);
        i += 1;
    }
    PGMImage { width: 16, height: 16, maxval: 255, image_u8: samples }
}

#[test]
fn test_quantization_table_values() {
    let table = quantization_table_for(BLOCK_SIZE_8X8).unwrap();
    let expected: Vec<u8> = vec![
        16, 11, 10, 16, 24, 40, 51, 61, 12, 12, 14, 19, 26, 58, 60, 55, 14, 13, 16, 24, 40, 57,
        69, 56, 14, 17, 22, 29, 51, 87, 80, 62, 18, 22, 37, 56, 68, 109, 103, 77, 24, 35, 55, 64,
        81, 104, 113, 92, 49, 64, 78, 87, 103, 121, 120, 101, 72, 92, 95, 98, 112, 100, 103, 99,
    ];
    assert_eq!(table, expected);
}

#[test]
fn test_quantization_table_unsupported_block_size() {
    assert_eq!(quantization_table_for(0), Err(DctError::UnsupportedBlockSize));
    assert_eq!(quantization_table_for(4), Err(DctError::UnsupportedBlockSize));
    assert_eq!(quantization_table_for(16), Err(DctError::UnsupportedBlockSize));
}

#[test]
fn test_partition_blocks_order_and_contents() {
    let pgm_image = ramp_image_16x16();
    let blocks = partition_blocks(&pgm_image, BLOCK_SIZE_8X8).unwrap();
    assert_eq!(blocks.len(), 4);
    for block in &blocks {
        assert_eq!(block.len(), 64);
    }
    // Ascending block-index order: each block starts at its own top-left sample.
    assert_eq!(blocks[0][0], pgm_image.image_u8[0]);
    assert_eq!(blocks[1][0], pgm_image.image_u8[8]);
    assert_eq!(blocks[2][0], pgm_image.image_u8[128]);
    assert_eq!(blocks[3][0], pgm_image.image_u8[136]);
}

#[test]
fn test_partition_blocks_round_trip() {
    // Reassembling the extracted blocks in row-major order reconstructs the
    // raster's sample sequence exactly.
    let pgm_image = ramp_image_16x16();
    let blocks = partition_blocks(&pgm_image, BLOCK_SIZE_8X8).unwrap();
    let mut rebuilt: Vec<u8> = Vec::new();
    let mut p: usize = 0;
    while p < 16 * 16 {
        let row: usize = p / 16;
        let col: usize = p % 16;
        let block_index: usize = (row / 8) * 2 + col / 8;
        let offset: usize = (row % 8) * 8 + col % 8;
        rebuilt.push(blocks[block_index][offset]);
        p += 1;
    }
    assert_eq!(rebuilt, pgm_image.image_u8);
}

#[test]
fn test_partition_blocks_invalid_block_size() {
    // 12 is not a multiple of 8, so the grid cannot be partitioned.
    let mut samples: Vec<u8> = Vec::new();
    let mut i: usize = 0;
    while i < 12 * 16 {
        samples.push(i as u8);
        i += 1;
    }
    let pgm_image = PGMImage { width: 12, height: 16, maxval: 255, image_u8: samples };
    assert_eq!(
        partition_blocks(&pgm_image, BLOCK_SIZE_8X8),
        Err(DctError::InvalidBlockSize)
    );

    let square = ramp_image_16x16();
    assert_eq!(partition_blocks(&square, 0), Err(DctError::InvalidBlockSize));
    assert_eq!(partition_blocks(&square, 5), Err(DctError::InvalidBlockSize));
}
