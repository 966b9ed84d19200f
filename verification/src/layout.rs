use vstd::arithmetic::div_mod::{
    lemma_fundamental_div_mod, lemma_fundamental_div_mod_converse, lemma_mod_bound,
};
use vstd::arithmetic::div_mod::lemma_div_multiples_vanish;
use vstd::arithmetic::mul::lemma_mul_inequality;
use vstd::prelude::*;

verus! {

/// How many blocks stand side by side in one row of blocks.
pub open spec fn blocks_per_row(width: nat, block_size: nat) -> nat {
    width / block_size
}

/// How many blocks the grid holds: the quotient width * height / block_size^2,
/// exact exactly when the block size divides both dimensions.
pub open spec fn grid_blocks(width: nat, height: nat, block_size: nat) -> nat {
    (width * height) / (block_size * block_size)
}

/// Flat raster offset of the top-left sample of the block with the given
/// index, in row-major block order.
pub open spec fn block_start(width: nat, block_size: nat, block_index: nat) -> nat {
    (block_index / blocks_per_row(width, block_size)) * block_size * width
        + (block_index % blocks_per_row(width, block_size)) * block_size
}

/// Flat raster offset of element k of the block with the given index; element
/// k sits at in-block row k / block_size, column k % block_size.
pub open spec fn block_sample_pos(width: nat, block_size: nat, block_index: nat, k: nat) -> nat {
    block_start(width, block_size, block_index) + (k / block_size) * width + (k % block_size)
}

/// The samples of one block, gathered in row-major order.
pub open spec fn spec_block(samples: Seq<u8>, width: nat, block_size: nat, block_index: nat) -> Seq<
    u8,
> {
    Seq::new(
        block_size * block_size,
        |k: int| samples[block_sample_pos(width, block_size, block_index, k as nat) as int],
    )
}

/// Every block of the grid, in ascending block-index order.
pub open spec fn spec_all_blocks(
    samples: Seq<u8>,
    width: nat,
    height: nat,
    block_size: nat,
) -> Seq<Seq<u8>> {
    Seq::new(
        grid_blocks(width, height, block_size),
        |i: int| spec_block(samples, width, block_size, i as nat),
    )
}

/// The index of the block that raster position p falls in.
pub open spec fn block_index_of(width: nat, block_size: nat, p: nat) -> nat {
    ((p / width) / block_size) * blocks_per_row(width, block_size) + (p % width) / block_size
}

/// The in-block element position that raster position p falls on.
pub open spec fn block_offset_of(width: nat, block_size: nat, p: nat) -> nat {
    ((p / width) % block_size) * block_size + (p % width) % block_size
}

/// The raster that a sequence of blocks describes, put back together sample
/// by sample.
pub open spec fn reassembled(
    blocks: Seq<Seq<u8>>,
    width: nat,
    block_size: nat,
    total: nat,
) -> Seq<u8> {
    Seq::new(
        total,
        |p: int|
            blocks[block_index_of(width, block_size, p as nat) as int][block_offset_of(
                width,
                block_size,
                p as nat,
            ) as int],
    )
}

/// A value below a multiple of d stays strictly below after division by d.
pub proof fn lemma_div_strict_bound(x: nat, b: nat, d: nat)
    requires
        0 < d,
        b % d == 0,
        x < b,
    ensures
        x / d < b / d,
{
    let q = x / d;
    let r = x % d;
    let qb = b / d;
    lemma_fundamental_div_mod(x as int, d as int);
    lemma_fundamental_div_mod(b as int, d as int);
    assert(q < qb) by (nonlinear_arith)
        requires
            x == d * q + r,
            b == d * qb,
            0 <= r,
            x < b,
            0 < d,
            0 <= q,
            0 <= qb,
    ;
}

/// When the block size divides both dimensions, the block count is the
/// product of the number of block columns and the number of block rows.
pub proof fn lemma_grid_blocks_product(width: nat, height: nat, block_size: nat)
    requires
        0 < block_size,
        width % block_size == 0,
        height % block_size == 0,
    ensures
        grid_blocks(width, height, block_size) == blocks_per_row(width, block_size) * (height
            / block_size),
{
    let bs = block_size;
    let a = width / bs;
    let b = height / bs;
    lemma_fundamental_div_mod(width as int, bs as int);
    lemma_fundamental_div_mod(height as int, bs as int);
    assert(width * height == (bs * bs) * (a * b)) by (nonlinear_arith)
        requires
            width == bs * a,
            height == bs * b,
    ;
    assert(0 < bs * bs) by (nonlinear_arith)
        requires
            0 < bs,
    ;
    lemma_div_multiples_vanish((a * b) as int, (bs * bs) as int);
}

/// Positive dimensions that the block size divides bound the block size and
/// its square by the dimensions and the sample count.
pub proof fn lemma_block_size_bounds(width: nat, height: nat, block_size: nat)
    requires
        0 < block_size,
        0 < width,
        0 < height,
        width % block_size == 0,
        height % block_size == 0,
    ensures
        block_size <= width,
        block_size <= height,
        block_size * block_size <= width * height,
        0 < blocks_per_row(width, block_size),
        0 < height / block_size,
{
    let bs = block_size;
    let qw = width / bs;
    let qh = height / bs;
    lemma_fundamental_div_mod(width as int, bs as int);
    lemma_fundamental_div_mod(height as int, bs as int);
    assert(1 <= qw) by (nonlinear_arith)
        requires
            width == bs * qw,
            0 < width,
            0 <= qw,
    ;
    assert(1 <= qh) by (nonlinear_arith)
        requires
            height == bs * qh,
            0 < height,
            0 <= qh,
    ;
    assert(bs <= width && bs <= height && bs * bs <= width * height) by (nonlinear_arith)
        requires
            width == bs * qw,
            height == bs * qh,
            1 <= qw,
            1 <= qh,
            0 < bs,
    ;
}

/// Within a partitionable grid, the sample at in-block row r and column c of
/// a valid block lies inside the raster.
pub proof fn lemma_block_pos_bound(
    width: nat,
    height: nat,
    block_size: nat,
    block_index: nat,
    r: nat,
    c: nat,
)
    requires
        0 < block_size,
        0 < width,
        0 < height,
        width % block_size == 0,
        height % block_size == 0,
        block_index < grid_blocks(width, height, block_size),
        r < block_size,
        c < block_size,
    ensures
        block_start(width, block_size, block_index) + r * width + c < width * height,
{
    let bs = block_size;
    let bpr = width / bs;
    let bpc = height / bs;
    lemma_grid_blocks_product(width, height, bs);
    lemma_block_size_bounds(width, height, bs);
    lemma_fundamental_div_mod(width as int, bs as int);
    lemma_fundamental_div_mod(height as int, bs as int);
    let br = block_index / bpr;
    let bc = block_index % bpr;
    lemma_fundamental_div_mod(block_index as int, bpr as int);
    lemma_mod_bound(block_index as int, bpr as int);
    assert(br < bpc) by (nonlinear_arith)
        requires
            block_index == bpr * br + bc,
            0 <= bc,
            block_index < bpr * bpc,
            0 < bpr,
            0 <= br,
    ;
    assert(br * bs * width + bc * bs + r * width + c < width * height) by (nonlinear_arith)
        requires
            br + 1 <= bpc,
            bc + 1 <= bpr,
            r + 1 <= bs,
            c + 1 <= bs,
            width == bs * bpr,
            height == bs * bpc,
            0 <= br,
            0 <= bc,
            0 <= r,
            0 <= c,
            0 < bs,
    ;
}

/// An in-block row and column and the flat in-block position r * block_size + c
/// name the same element.
pub proof fn lemma_flat_index_decompose(block_size: nat, r: nat, c: nat)
    requires
        0 < block_size,
        c < block_size,
    ensures
        (r * block_size + c) / block_size == r,
        (r * block_size + c) % block_size == c,
{
    lemma_fundamental_div_mod_converse(
        (r * block_size + c) as int,
        block_size as int,
        r as int,
        c as int,
    );
}

/// Every raster position of a partitionable grid lies in exactly the block
/// and at exactly the in-block element that block_index_of and
/// block_offset_of name.
pub proof fn lemma_position_decompose(width: nat, height: nat, block_size: nat, p: nat)
    requires
        0 < block_size,
        0 < width,
        0 < height,
        width % block_size == 0,
        height % block_size == 0,
        p < width * height,
    ensures
        block_index_of(width, block_size, p) < grid_blocks(width, height, block_size),
        block_offset_of(width, block_size, p) < block_size * block_size,
        block_sample_pos(
            width,
            block_size,
            block_index_of(width, block_size, p),
            block_offset_of(width, block_size, p),
        ) == p,
{
    let bs = block_size;
    let bpr = width / bs;
    let bpc = height / bs;
    lemma_grid_blocks_product(width, height, bs);
    lemma_block_size_bounds(width, height, bs);
    let row = p / width;
    let col = p % width;
    lemma_fundamental_div_mod(p as int, width as int);
    lemma_mod_bound(p as int, width as int);
    assert(row < height) by (nonlinear_arith)
        requires
            p == width * row + col,
            0 <= col,
            p < width * height,
            0 < width,
            0 <= row,
    ;
    let br = row / bs;
    let rr = row % bs;
    let bc = col / bs;
    let cc = col % bs;
    lemma_fundamental_div_mod(row as int, bs as int);
    lemma_mod_bound(row as int, bs as int);
    lemma_fundamental_div_mod(col as int, bs as int);
    lemma_mod_bound(col as int, bs as int);
    lemma_div_strict_bound(row, height, bs);
    lemma_div_strict_bound(col, width, bs);
    let bi = br * bpr + bc;
    let bo = rr * bs + cc;
    lemma_fundamental_div_mod_converse(bi as int, bpr as int, br as int, bc as int);
    lemma_fundamental_div_mod_converse(bo as int, bs as int, rr as int, cc as int);
    assert(bi < bpr * bpc) by (nonlinear_arith)
        requires
            bi == br * bpr + bc,
            br + 1 <= bpc,
            bc + 1 <= bpr,
            0 <= br,
            0 <= bc,
            0 < bpr,
    ;
    assert(bo < bs * bs) by (nonlinear_arith)
        requires
            bo == rr * bs + cc,
            rr + 1 <= bs,
            cc + 1 <= bs,
            0 <= rr,
            0 <= cc,
            0 < bs,
    ;
    assert(block_index_of(width, bs, p) == bi);
    assert(block_offset_of(width, bs, p) == bo);
    assert(br * bs * width + bc * bs + rr * width + cc == p) by (nonlinear_arith)
        requires
            p == width * row + col,
            row == bs * br + rr,
            col == bs * bc + cc,
    ;
    assert(block_sample_pos(width, bs, bi, bo) == br * bs * width + bc * bs + rr * width + cc);
}

/// Reassembling the extracted blocks of a partitionable raster, sample by
/// sample, gives back exactly the raster's own sample sequence.
pub proof fn lemma_extraction_round_trip(samples: Seq<u8>, width: nat, height: nat, block_size: nat)
    requires
        0 < block_size,
        0 < width,
        0 < height,
        width % block_size == 0,
        height % block_size == 0,
        samples.len() == width * height,
    ensures
        reassembled(
            spec_all_blocks(samples, width, height, block_size),
            width,
            block_size,
            width * height,
        ) == samples,
{
    let blocks = spec_all_blocks(samples, width, height, block_size);
    let re = reassembled(blocks, width, block_size, width * height);
    assert forall|p: int| 0 <= p < samples.len() implies re[p] == samples[p] by {
        lemma_position_decompose(width, height, block_size, p as nat);
        let bi = block_index_of(width, block_size, p as nat);
        let bo = block_offset_of(width, block_size, p as nat);
        assert(blocks[bi as int] == spec_block(samples, width, block_size, bi));
        assert(blocks[bi as int][bo as int] == samples[block_sample_pos(
            width,
            block_size,
            bi,
            bo,
        ) as int]);
    };
    assert(re =~= samples);
}

} // verus!
