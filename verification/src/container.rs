//! The fixed layout of a container file, read from its bytes.
//!
//! A container file holds a 32 x 32 grid of chunk slots. Its first 4096
//! bytes are the location table: 1024 big-endian 4-byte entries, indexed by
//! `z * 32 + x`. An entry's top three bytes give the slot's payload position
//! in 4096-byte sectors, its low byte a sector count; an entry whose offset
//! is zero marks an absent slot. A present slot's payload starts with a
//! 4-byte big-endian length `L` and a one-byte compression scheme, followed
//! by `L - 1` bytes that decompress to one root tag.

use vstd::prelude::*;

use crate::error::DecodeError;
use crate::nbt::{be32, read_be32, read_bytes_at};
use crate::types::{Edges, Pair};

verus! {

/// The location-table entry of slot (x, z).
pub open spec fn table_entry(data: Seq<u8>, x: int, z: int) -> int {
    be32(data, 4 * (z * 32 + x))
}

/// The byte offset of slot (x, z)'s payload: the entry's top three bytes
/// count 4096-byte sectors. Zero means the slot is absent.
pub open spec fn slot_offset(data: Seq<u8>, x: int, z: int) -> int {
    (table_entry(data, x, z) / 256) * 4096
}

/// True when the slot's length field and declared payload lie within the
/// file: at least one byte (the scheme) is declared and the whole payload
/// fits.
pub open spec fn slot_header_ok(data: Seq<u8>, off: int) -> bool {
    &&& off + 5 <= data.len()
    &&& be32(data, off) >= 1
    &&& off + 4 + be32(data, off) <= data.len()
}

/// The compression scheme byte of the slot payload at `off`.
pub open spec fn slot_scheme(data: Seq<u8>, off: int) -> int {
    data[off + 4] as int
}

/// The compressed bytes of the slot payload at `off`: the declared length
/// counts the scheme byte, so the stream is one byte shorter.
pub open spec fn slot_payload(data: Seq<u8>, off: int) -> Seq<u8> {
    data.subrange(off + 5, off + 4 + be32(data, off))
}

/// What `flate2`'s zlib decompression yields for a compressed byte stream;
/// the result is a function of those bytes alone.
pub uninterp spec fn inflate_of(compressed: Seq<u8>) -> Seq<u8>;

/// Whether `flate2`'s zlib decompression accepts a compressed byte stream;
/// like the output, acceptance is a function of those bytes alone.
pub uninterp spec fn inflate_ok(compressed: Seq<u8>) -> bool;

/// Relies on flate2's `read::ZlibDecoder` over a byte slice, drained with
/// `read_to_end`: decompression is deterministic — both whether the bytes
/// decompress and what they decompress to depend on the bytes alone.
#[verifier::external_body]
pub(crate) fn zlib_inflate(data: &Vec<u8>) -> (r: Result<Vec<u8>, DecodeError>)
    ensures
        r is Ok <==> inflate_ok(data@),
        r matches Ok(v) ==> v@ == inflate_of(data@),
{
    let mut out: Vec<u8> = Vec::new();
    let mut dec = flate2::read::ZlibDecoder::new(data.as_slice());
    match std::io::Read::read_to_end(&mut dec, &mut out) {
        Ok(_) => Ok(out),
        Err(_) => Err(DecodeError::Inflate),
    }
}

/// The big-endian 32-bit word at `pos` of the file.
pub fn read_u32(data: &Vec<u8>, pos: usize) -> (r: Result<u32, DecodeError>)
    ensures
        match r {
            Ok(v) => pos + 4 <= data@.len() && v == be32(data@, pos as int),
            Err(e) => pos + 4 > data@.len() && e == DecodeError::Truncated,
        },
{
    if data.len() < 4 || pos > data.len() - 4 {
        return Err(DecodeError::Truncated);
    }
    Ok(read_be32(data, pos))
}

/// Locate slot (x, z) in the location table: its payload's byte offset and
/// its sector count, or `None` for an absent slot (stored offset zero).
pub fn locate(data: &Vec<u8>, x: usize, z: usize) -> (r: Result<
    Option<(u64, u64)>,
    DecodeError,
>)
    requires
        x < 32,
        z < 32,
    ensures
        match r {
            Ok(hit) => 4 * (z * 32 + x) + 4 <= data@.len() && match hit {
                Some((off, count)) => off == slot_offset(data@, x as int, z as int) && off != 0
                    && count == table_entry(data@, x as int, z as int) % 256,
                None => slot_offset(data@, x as int, z as int) == 0,
            },
            Err(e) => 4 * (z * 32 + x) + 4 > data@.len() && e == DecodeError::Truncated,
        },
{
    let entry = match read_u32(data, (z * 32 + x) * 4) {
        Ok(v) => v,
        Err(e) => {
            return Err(e);
        },
    };
    let off = ((entry / 256) as u64) * 4096;
    if off == 0 {
        Ok(None)
    } else {
        Ok(Some((off, (entry % 256) as u64)))
    }
}

/// Read the presence flag of every slot of the location table, in row-major
/// order: a slot counts as present when its whole entry is nonzero.
pub fn read_region_chunks(data: &Vec<u8>) -> (r: Result<Vec<bool>, DecodeError>)
    ensures
        match r {
            Ok(v) => data@.len() >= 4096 && v@.len() == 1024 && forall|p: int|
                0 <= p < 1024 ==> v@[p] == (be32(data@, 4 * p) != 0),
            Err(e) => data@.len() < 4096 && e == DecodeError::Truncated,
        },
{
    if data.len() < 4096 {
        return Err(DecodeError::Truncated);
    }
    let mut out: Vec<bool> = Vec::new();
    let mut p: usize = 0;
    while p < 1024
        invariant
            p <= 1024,
            data@.len() >= 4096,
            out@.len() == p,
            forall|k: int| 0 <= k < p ==> out@[k] == (be32(data@, 4 * k) != 0),
        decreases 1024 - p,
    {
        let entry = read_be32(data, p * 4);
        out.push(entry != 0);
        p = p + 1;
    }
    Ok(out)
}

/// True when slot (cx, cz) lies within the optional bounds.
pub open spec fn in_bounds(limits: Option<Edges<usize>>, cx: int, cz: int) -> bool {
    match limits {
        None => true,
        Some(l) => l.w <= cx <= l.e && l.n <= cz <= l.s,
    }
}

/// The occupied coordinates among the first `k` slots in row-major order,
/// restricted to the bounds: slot `q` is (x, z) = (q % 32, q / 32).
pub open spec fn occupied_upto(data: Seq<u8>, limits: Option<Edges<usize>>, k: int) -> Seq<
    Pair<usize>,
>
    decreases k,
{
    if k <= 0 {
        Seq::empty()
    } else {
        let cz = (k - 1) / 32;
        let cx = (k - 1) % 32;
        occupied_upto(data, limits, k - 1) + if in_bounds(limits, cx, cz) && be32(
            data,
            4 * (k - 1),
        ) != 0 {
            seq![Pair { x: cx as usize, z: cz as usize }]
        } else {
            Seq::empty()
        }
    }
}

/// A coordinate pair appears in the enumeration exactly when its slot lies
/// in the scanned range and the bounds, and its entry is nonzero.
pub proof fn lemma_occupied_upto_membership(
    data: Seq<u8>,
    limits: Option<Edges<usize>>,
    k: int,
    p: Pair<usize>,
)
    requires
        0 <= k <= 1024,
    ensures
        occupied_upto(data, limits, k).contains(p) <==> (p.x < 32 && p.z < 32 && p.z * 32 + p.x
            < k && in_bounds(limits, p.x as int, p.z as int) && be32(
            data,
            4 * (p.z * 32 + p.x),
        ) != 0),
    decreases k,
{
    if k > 0 {
        lemma_occupied_upto_membership(data, limits, k - 1, p);
        let cz = (k - 1) / 32;
        let cx = (k - 1) % 32;
        let prev = occupied_upto(data, limits, k - 1);
        let added = if in_bounds(limits, cx, cz) && be32(data, 4 * (k - 1)) != 0 {
            seq![Pair { x: cx as usize, z: cz as usize }]
        } else {
            Seq::<Pair<usize>>::empty()
        };
        assert(occupied_upto(data, limits, k) == prev + added);
        assert(cz * 32 + cx == k - 1) by {
            vstd::arithmetic::div_mod::lemma_fundamental_div_mod(k - 1, 32);
        }
        vstd::arithmetic::div_mod::lemma_mod_bound(k - 1, 32);
        vstd::arithmetic::div_mod::lemma_div_pos_is_pos(k - 1, 32);
        assert(cz < 32) by {
            vstd::arithmetic::div_mod::lemma_fundamental_div_mod(k - 1, 32);
            vstd::arithmetic::div_mod::lemma_mod_bound(k - 1, 32);
        }
        if occupied_upto(data, limits, k).contains(p) {
            let i = choose|i: int|
                0 <= i < occupied_upto(data, limits, k).len() && occupied_upto(data, limits, k)[i]
                    == p;
            if i < prev.len() {
                assert(prev.contains(p));
            } else {
                assert(added.len() == 1 && p == added[0]);
            }
        }
        if p.x < 32 && p.z < 32 && p.z * 32 + p.x < k && in_bounds(limits, p.x as int, p.z as int)
            && be32(data, 4 * (p.z * 32 + p.x)) != 0 {
            if p.z * 32 + p.x < k - 1 {
                assert(prev.contains(p));
                let i = choose|i: int| 0 <= i < prev.len() && prev[i] == p;
                assert(occupied_upto(data, limits, k)[i] == p);
            } else {
                assert(p.z == cz && p.x == cx) by {
                    vstd::arithmetic::div_mod::lemma_fundamental_div_mod_converse(
                        k - 1,
                        32,
                        p.z as int,
                        p.x as int,
                    );
                }
                assert(occupied_upto(data, limits, k)[prev.len() as int] == p);
            }
        }
    }
}

/// Every enumerated coordinate lies within the 32 x 32 grid.
pub proof fn lemma_occupied_upto_bounds(data: Seq<u8>, limits: Option<Edges<usize>>, k: int)
    requires
        0 <= k <= 1024,
    ensures
        forall|i: int|
            0 <= i < occupied_upto(data, limits, k).len() ==> (#[trigger] occupied_upto(
                data,
                limits,
                k,
            )[i]).x < 32 && occupied_upto(data, limits, k)[i].z < 32,
    decreases k,
{
    if k > 0 {
        lemma_occupied_upto_bounds(data, limits, k - 1);
        vstd::arithmetic::div_mod::lemma_mod_bound(k - 1, 32);
        vstd::arithmetic::div_mod::lemma_div_pos_is_pos(k - 1, 32);
        assert((k - 1) / 32 < 32) by {
            vstd::arithmetic::div_mod::lemma_fundamental_div_mod(k - 1, 32);
            vstd::arithmetic::div_mod::lemma_mod_bound(k - 1, 32);
        }
        let s = occupied_upto(data, limits, k);
        let prev = occupied_upto(data, limits, k - 1);
        assert forall|i: int| 0 <= i < s.len() implies s[i].x < 32 && s[i].z < 32 by {
            if i < prev.len() {
                assert(s[i] == prev[i]);
            } else {
                assert(s[i] == s.last());
            }
        }
    }
}

/// The occupied coordinates of the location table, in row-major order,
/// restricted to the optional bounds. Yields the pairs (x, z) whose entries
/// are nonzero.
pub fn read_region_chunk_coords(data: &Vec<u8>, limits: &Option<Edges<usize>>) -> (r: Result<
    Vec<Pair<usize>>,
    DecodeError,
>)
    ensures
        match r {
            Ok(v) => data@.len() >= 4096 && v@ == occupied_upto(data@, *limits, 1024),
            Err(e) => data@.len() < 4096 && e == DecodeError::Truncated,
        },
{
    if data.len() < 4096 {
        return Err(DecodeError::Truncated);
    }
    let mut out: Vec<Pair<usize>> = Vec::new();
    let mut k: usize = 0;
    while k < 1024
        invariant
            k <= 1024,
            data@.len() >= 4096,
            out@ == occupied_upto(data@, *limits, k as int),
        decreases 1024 - k,
    {
        let cz = k / 32;
        let cx = k % 32;
        let inside = match limits {
            None => true,
            Some(l) => cx >= l.w && cx <= l.e && cz >= l.n && cz <= l.s,
        };
        let entry = read_be32(data, 4 * k);
        if inside && entry != 0 {
            out.push(Pair { x: cx, z: cz });
            proof {
                assert(out@ =~= occupied_upto(data@, *limits, k + 1));
            }
        } else {
            proof {
                assert(out@ =~= occupied_upto(data@, *limits, k + 1));
            }
        }
        k = k + 1;
    }
    Ok(out)
}

/// True when slot (x, z) does not stand in the way of reading its
/// container: its table entry is readable, and the slot is either absent or
/// has a well-formed header, the standard scheme, and a payload its
/// decompressor accepts. `open_slot` succeeds exactly on such slots.
pub open spec fn slot_openable(data: Seq<u8>, x: int, z: int) -> bool {
    &&& 4 * (z * 32 + x) + 4 <= data.len()
    &&& {
        let off = slot_offset(data, x, z);
        off == 0 || (slot_header_ok(data, off) && slot_scheme(data, off) == 2 && inflate_ok(
            slot_payload(data, off),
        ))
    }
}

/// Open slot (x, z): locate it, check its declared length and scheme byte,
/// and decompress its payload. `None` for an absent slot; the standard
/// scheme (2) is the only one accepted. Succeeds exactly when the slot is
/// openable.
pub fn open_slot(data: &Vec<u8>, x: usize, z: usize) -> (r: Result<Option<Vec<u8>>, DecodeError>)
    requires
        x < 32,
        z < 32,
    ensures
        r is Ok <==> slot_openable(data@, x as int, z as int),
        ({
            let off = slot_offset(data@, x as int, z as int);
            match r {
                Ok(None) => 4 * (z * 32 + x) + 4 <= data@.len() && off == 0,
                Ok(Some(v)) => 4 * (z * 32 + x) + 4 <= data@.len() && off != 0 && slot_header_ok(
                    data@,
                    off,
                ) && slot_scheme(data@, off) == 2 && inflate_ok(slot_payload(data@, off)) && v@
                    == inflate_of(slot_payload(data@, off)),
                Err(e) => {
                    ||| (4 * (z * 32 + x) + 4 > data@.len() && e == DecodeError::Truncated)
                    ||| (4 * (z * 32 + x) + 4 <= data@.len() && off != 0 && !slot_header_ok(
                        data@,
                        off,
                    ) && e == DecodeError::Truncated)
                    ||| (4 * (z * 32 + x) + 4 <= data@.len() && off != 0 && slot_header_ok(
                        data@,
                        off,
                    ) && slot_scheme(data@, off) != 2 && e == DecodeError::BadScheme)
                    ||| (4 * (z * 32 + x) + 4 <= data@.len() && off != 0 && slot_header_ok(
                        data@,
                        off,
                    ) && slot_scheme(data@, off) == 2 && !inflate_ok(
                        slot_payload(data@, off),
                    ) && e == DecodeError::Inflate)
                },
            }
        }),
{
    let off64 = match locate(data, x, z) {
        Err(e) => {
            return Err(e);
        },
        Ok(None) => {
            return Ok(None);
        },
        Ok(Some((off, _count))) => off,
    };
    let len = data.len();
    if off64 + 5 > len as u64 {
        return Err(DecodeError::Truncated);
    }
    let off = off64 as usize;
    let declared = read_be32(data, off);
    if declared == 0 {
        return Err(DecodeError::Truncated);
    }
    if (declared as u64) + 4 > (len as u64) - off64 {
        return Err(DecodeError::Truncated);
    }
    let scheme = data[off + 4];
    if scheme != 2 {
        return Err(DecodeError::BadScheme);
    }
    let compressed = read_bytes_at(data, off + 5, (declared - 1) as usize);
    match zlib_inflate(&compressed) {
        Ok(v) => Ok(Some(v)),
        Err(_) => Err(DecodeError::Inflate),
    }
}

} // verus!
