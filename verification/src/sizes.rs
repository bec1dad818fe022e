//! Fixed dimensions of the world format, and conversions between the block,
//! unit ("chunk") and container ("region") coordinate spaces.
//!
//! A chunk is 16 x 16 x 256 blocks; a region holds a 32 x 32 grid of chunks.
//! Coordinate conversions divide by the scale factor rounding toward negative
//! infinity, so that negative coordinates map to the correct chunk or region.

use vstd::prelude::*;

verus! {

/// Blocks along one horizontal axis of a chunk.
pub const BLOCKS_IN_CHUNK: usize = 16;
/// Largest in-chunk block index on a horizontal axis.
pub const MAX_BLOCK_IN_CHUNK: usize = 15;
/// Blocks along the vertical axis of a chunk.
pub const BLOCKS_IN_CHUNK_Y: usize = 256;
/// Largest in-chunk block index on the vertical axis.
pub const MAX_BLOCK_IN_CHUNK_Y: usize = 255;
/// Blocks in one horizontal layer of a chunk.
pub const BLOCKS_IN_CHUNK_2D: usize = 256;
/// Blocks in a whole chunk.
pub const BLOCKS_IN_CHUNK_3D: usize = 65536;
/// Vertical 16-block sections in a chunk.
pub const SECTIONS_IN_CHUNK_Y: usize = 16;
/// Largest section index in a chunk.
pub const MAX_SECTION_IN_CHUNK_Y: usize = 15;
/// Blocks along the vertical axis of one section.
pub const BLOCKS_IN_SECTION_Y: usize = 16;
/// Blocks in a whole section.
pub const BLOCKS_IN_SECTION_3D: usize = 4096;
/// Chunks along one axis of a region.
pub const CHUNKS_IN_REGION: usize = 32;
/// Largest chunk index on one axis of a region.
pub const MAX_CHUNK_IN_REGION: usize = 31;
/// Chunk slots in a region's location table.
pub const CHUNKS_IN_REGION_2D: usize = 1024;
/// Blocks along one horizontal axis of a region.
pub const BLOCKS_IN_REGION: usize = 512;
/// Bytes in one sector of a container file.
pub const SECTOR_SIZE: usize = 4096;

/// Division by a small positive divisor, rounding toward negative infinity.
///
/// This matches `/` of the specification language on a positive divisor,
/// which is what coordinate scaling means for negative coordinates.
fn floor_div(a: i64, d: u64) -> (r: i64)
    requires
        2 <= d <= 512,
    ensures
        r == a as int / d as int,
{
    if a >= 0 {
        ((a as u64) / d) as i64
    } else {
        let n: u64 = (-(a as i128)) as u64;
        let q: u64 = n / d;
        let rem: u64 = n % d;
        proof {
            lemma_neg_div(a as int, d as int, q as int, rem as int);
            assert(2 * q <= q * (d as int)) by (nonlinear_arith)
                requires 2 <= d, 0 <= q;
        }
        if rem != 0 {
            -((q + 1) as i64)
        } else {
            -(q as i64)
        }
    }
}

/// For `n == -a` with `n == q*d + rem` and `0 <= rem < d`, gives the
/// Euclidean quotient of the negative dividend `a`.
proof fn lemma_neg_div(a: int, d: int, q: int, rem: int)
    requires
        2 <= d,
        a < 0,
        q == (-a) / d,
        rem == (-a) % d,
    ensures
        rem == 0 ==> a / d == -q,
        rem != 0 ==> a / d == -(q + 1),
        q * d <= -a,
{
    let n = -a;
    vstd::arithmetic::div_mod::lemma_fundamental_div_mod(n, d);
    vstd::arithmetic::div_mod::lemma_mod_bound(n, d);
    if rem == 0 {
        assert(a == d * (-q) + 0) by (nonlinear_arith)
            requires n == d * q + rem, rem == 0, a == -n;
        vstd::arithmetic::div_mod::lemma_fundamental_div_mod_converse(a, d, -q, 0);
    } else {
        assert(a == d * (-(q + 1)) + (d - rem)) by (nonlinear_arith)
            requires n == d * q + rem, a == -n;
        vstd::arithmetic::div_mod::lemma_fundamental_div_mod_converse(a, d, -(q + 1), d - rem);
    }
    assert(q * d <= n) by (nonlinear_arith)
        requires n == d * q + rem, 0 <= rem;
}

/// Chunk coordinate of the chunk containing a block coordinate.
pub fn block_to_chunk(b: i64) -> (r: i64)
    ensures
        r == b as int / 16,
{
    floor_div(b, 16)
}

/// Region coordinate of the region containing a block coordinate.
pub fn block_to_region(b: i64) -> (r: i64)
    ensures
        r == b as int / 512,
{
    floor_div(b, 512)
}

/// Region coordinate of the region containing a chunk coordinate.
pub fn chunk_to_region(c: i64) -> (r: i64)
    ensures
        r == c as int / 32,
{
    floor_div(c, 32)
}

/// In-region position of chunk coordinate `c` relative to region `r`,
/// clamped to the 32 slots of the region.
pub open spec fn clamped_chunk_pos(c: int, r: int) -> int {
    if c < r * 32 {
        0
    } else if c > r * 32 + 31 {
        31
    } else {
        c - r * 32
    }
}

/// In-region position of a chunk coordinate, clamped to region `r`.
///
/// Used to restrict a decode to the part of region `r` that a global chunk
/// range touches: a bound lying before the region clamps to 0, one past it
/// clamps to the last slot.
pub fn chunk_pos_in_region(c: i64, r: i64) -> (p: usize)
    requires
        -0x1000_0000_0000 <= r <= 0x1000_0000_0000,
    ensures
        p == clamped_chunk_pos(c as int, r as int),
        p <= 31,
{
    let base = r * 32;
    if c < base {
        0
    } else if c > base + 31 {
        31
    } else {
        (c - base) as usize
    }
}

} // verus!
