//! Extraction of bit-packed integer arrays.
//!
//! A section's block indices are stored as an array of 64-bit words. Taking
//! the words in reverse order, each as big-endian bytes, gives one long bit
//! buffer; values are read from it most-significant-bit first, so the value
//! at the highest array position comes first in the buffer. The bit width of
//! a section's indices is derived from the stored word count alone
//! (`word count / 64`): the convention of format revisions that never split
//! a value across a word boundary. The same buffer model, read at nine
//! bits, decodes the fixed-size height map.

use vstd::prelude::*;

use crate::error::DecodeError;

verus! {

/// Bit `t` of the bit buffer formed by the words in reverse order, each
/// big-endian: bit 0 is the most significant bit of the last word.
pub open spec fn stream_bit(words: Seq<u64>, t: int) -> u64 {
    (words[words.len() - 1 - t / 64] >> ((63 - (t % 64)) as u64)) & 1
}

/// The value of `width` buffer bits starting at bit `start`, most
/// significant bit first.
pub open spec fn bits_val(words: Seq<u64>, start: int, width: nat) -> nat
    decreases width,
{
    if width == 0 {
        0
    } else {
        bits_val(words, start, (width - 1) as nat) * 2 + stream_bit(
            words,
            start + width - 1,
        ) as nat
    }
}

/// The bit width that the stored word count implies: one 64-bit word per 64
/// voxels and bit of width, with no value split across a word boundary.
pub open spec fn derived_width(words: Seq<u64>) -> nat {
    (words.len() / 64) as nat
}

/// The local palette index of voxel `i` of a section: the packed values are
/// read from the buffer high voxel first, so voxel `i` is the `(4095 - i)`-th
/// value.
pub open spec fn packed_index(words: Seq<u64>, width: nat, i: int) -> nat {
    bits_val(words, (4095 - i) * width, width)
}

/// Read `width` bits of the buffer starting at bit `start`.
pub(crate) fn read_packed_bits(words: &Vec<u64>, start: usize, width: usize) -> (r: u16)
    requires
        width <= 16,
        start + width <= words@.len() * 64,
        start + width <= usize::MAX,
    ensures
        r == bits_val(words@, start as int, width as nat),
{
    let len = words.len();
    let mut acc: u16 = 0;
    let mut j: usize = 0;
    proof {
        vstd::arithmetic::power2::lemma2_to64();
    }
    while j < width
        invariant
            j <= width <= 16,
            len == words@.len(),
            start + width <= len * 64,
            start + width <= usize::MAX,
            acc == bits_val(words@, start as int, j as nat),
            acc < vstd::arithmetic::power2::pow2(j as nat),
        decreases width - j,
    {
        let t = start + j;
        proof {
            assert(t < len * 64);
            assert(t / 64 < len) by {
                vstd::arithmetic::div_mod::lemma_fundamental_div_mod(t as int, 64);
                vstd::arithmetic::div_mod::lemma_mod_bound(t as int, 64);
            }
        }
        let word = words[len - 1 - t / 64];
        let sh = 63 - (t % 64);
        let bit = (word >> (sh as u64)) & 1;
        proof {
            let shs = (63 - ((t as int) % 64)) as u64;
            assert(shs == sh as u64);
            assert((word >> (sh as u64)) & 1 <= 1) by (bit_vector);
            assert(stream_bit(words@, t as int) == bit);
            vstd::arithmetic::power2::lemma_pow2_unfold((j + 1) as nat);
            vstd::arithmetic::power2::lemma_pow2_strictly_increases(j as nat, 16nat);
            vstd::arithmetic::power2::lemma2_to64();
        }
        acc = acc * 2 + (bit as u16);
        j = j + 1;
    }
    acc
}

/// Unpack the 4096 packed indices of one section and store, for each voxel,
/// the palette entry its index selects, at `so + voxel` in `blocks`.
///
/// The bit width is derived from the word count alone (`words / 64`). Fails
/// exactly when that width exceeds the widest supported read, or some packed
/// index points past the end of the palette; `blocks` keeps its length
/// either way.
pub fn unpack_section_blocks(
    words: &Vec<u64>,
    pal: &Vec<u16>,
    blocks: &mut Vec<u16>,
    so: usize,
) -> (r: Result<(), DecodeError>)
    requires
        old(blocks)@.len() == 65536,
        so + 4096 <= 65536,
    ensures
        final(blocks)@.len() == 65536,
        match r {
            Ok(()) => {
                &&& derived_width(words@) <= 16
                &&& forall|i: int|
                    #![auto]
                    0 <= i < 4096 ==> packed_index(words@, derived_width(words@), i) < pal@.len()
                &&& forall|j: int|
                    #![auto]
                    0 <= j < 65536 ==> final(blocks)@[j] == if so <= j < so + 4096 {
                        pal@[packed_index(words@, derived_width(words@), j - so) as int]
                    } else {
                        old(blocks)@[j]
                    }
            },
            Err(e) => {
                ||| (e == DecodeError::BadBitWidth && derived_width(words@) > 16)
                ||| (e == DecodeError::BadPalette && derived_width(words@) <= 16 && exists|i: int|
                    #![auto]
                    0 <= i < 4096 && packed_index(words@, derived_width(words@), i)
                        >= pal@.len())
            },
        },
{
    let len = words.len();
    let bits = len / 64;
    if bits > 16 {
        return Err(DecodeError::BadBitWidth);
    }
    proof {
        vstd::arithmetic::div_mod::lemma_fundamental_div_mod(len as int, 64);
        vstd::arithmetic::div_mod::lemma_mod_bound(len as int, 64);
        assert(4096 * ((len as int) / 64) <= 64 * len);
    }
    let mut i: usize = 0;
    while i < 4096
        invariant
            i <= 4096,
            len == words@.len(),
            bits == derived_width(words@),
            bits <= 16,
            so + 4096 <= 65536,
            blocks@.len() == 65536,
            4096 * (bits as int) <= 64 * (len as int),
            forall|k: int|
                #![auto]
                0 <= k < i ==> packed_index(words@, bits as nat, k) < pal@.len(),
            forall|j: int|
                #![auto]
                0 <= j < 65536 ==> blocks@[j] == if so <= j < so + i {
                    pal@[packed_index(words@, bits as nat, j - so) as int]
                } else {
                    old(blocks)@[j]
                },
        decreases 4096 - i,
    {
        proof {
            assert(0 <= (4095 - i as int) * (bits as int) && (4095 - i as int) * (bits as int)
                + bits == (4096 - i as int) * (bits as int) && (4096 - i as int) * (bits as int)
                <= 4096 * (bits as int) && (4096 - i as int) * (bits as int) <= 65536) by (
            nonlinear_arith)
                requires
                    0 <= i < 4096,
                    0 <= bits <= 16,
            ;
        }
        let start = (4095 - i) * bits;
        let local = read_packed_bits(words, start, bits);
        if (local as usize) >= pal.len() {
            proof {
                assert(packed_index(words@, derived_width(words@), i as int) >= pal@.len());
            }
            return Err(DecodeError::BadPalette);
        }
        blocks.set(so + i, pal[local as usize]);
        i = i + 1;
    }
    Ok(())
}

} // verus!
