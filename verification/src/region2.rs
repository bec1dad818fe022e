//! Decoding one spatial unit ("chunk") into its flattened arrays, and the
//! per-container grid of decoded units with their neighbor bundles.
//!
//! A decoded unit holds exactly 65536 block indices (16 x 16 x 256 voxels,
//! y-major, then z, then x), 65536 combined light bytes, and 256 biome
//! bytes. A unit decodes from the decompressed payload of its slot: its root
//! compound must hold a Level compound, inside which a Sections list and a
//! Biomes array are picked up in whatever order they occur.

use vstd::prelude::*;

use crate::container::{inflate_of, slot_header_ok, slot_offset, slot_payload, slot_scheme};
use crate::error::DecodeError;
use crate::types::{Edges, Pair};
use crate::names::{
    axis_y_name, biomes_name, block_light_name, block_states_name, level_name, name_axis_y,
    name_biomes, name_block_light, name_block_states, name_level, name_palette, name_sections,
    name_sky_light, palette_name, sections_name, sky_light_name,
};
use crate::nbt::{
    be32, entries_v, lookup, names_v, tag_v, Seek, Tag, TagReader, TagV, compound_get, seek_spec,
    materialize_spec, parse_payload,
};
use crate::pack::{derived_width, packed_index, unpack_section_blocks};
use crate::section::{
    combine_section_lights, combined_light, fill_light_gaps, gap_filled, resolve_palette,
    resolve_palette_spec,
};

verus! {

/// The fields a section's decoder materializes.
pub open spec fn section_names() -> Seq<Seq<u8>> {
    seq![
        axis_y_name(),
        palette_name(),
        block_states_name(),
        block_light_name(),
        sky_light_name(),
    ]
}

/// An all-zero block array.
pub open spec fn zero_blocks() -> Seq<u16> {
    Seq::new(65536, |i: int| 0u16)
}

/// An all-zero byte array of the given length.
pub open spec fn zero_bytes(n: nat) -> Seq<u8> {
    Seq::new(n, |i: int| 0u8)
}

/// The decoder's accumulated state: the three unit arrays, plus which
/// sections have light data of their own (for the copy-down pass).
#[verifier::ext_equal]
pub struct ChunkAccum {
    pub blocks: Seq<u16>,
    pub lights: Seq<u8>,
    pub present: Seq<bool>,
    pub biomes: Seq<u8>,
}

/// The state a unit starts from: all arrays zero, no section resolved.
pub open spec fn initial_accum() -> ChunkAccum {
    ChunkAccum {
        blocks: zero_blocks(),
        lights: zero_bytes(65536),
        present: Seq::new(16, |i: int| false),
        biomes: zero_bytes(256),
    }
}

/// The light nibble array a section contributes for one channel: an absent
/// channel is all zero; a present one must be a byte array of one nibble
/// per voxel.
pub open spec fn nibbles(t: Option<TagV>) -> Option<Seq<u8>> {
    match t {
        None => Some(zero_bytes(2048)),
        Some(v) => match v {
            TagV::ByteArray(b) => if b.len() == 2048 {
                Some(b)
            } else {
                None
            },
            _ => None,
        },
    }
}

/// One section's effect on the accumulated state, from its materialized
/// fields. `None` is a structural mismatch: no byte Y field, block states
/// that are not a long array, a missing or unresolvable palette, an
/// oversized bit width, an out-of-range packed index, or a malformed light
/// array. A section above the top of the unit is ignored.
pub open spec fn apply_section(
    entries: Seq<(Seq<u8>, TagV)>,
    table: Seq<Seq<u8>>,
    st: ChunkAccum,
) -> Option<ChunkAccum> {
    match lookup(entries, axis_y_name()) {
        Some(yv) => match yv {
            TagV::Byte(y) => if y > 15 {
                Some(st)
            } else {
                let so = (y as int) * 4096;
                let st1 = match lookup(entries, block_states_name()) {
                    None => Some(st),
                    Some(sv) => match sv {
                        TagV::LongArray(words) => match lookup(entries, palette_name()) {
                            Some(pv) => match pv {
                                TagV::List(ec, pal) => match resolve_palette_spec(pal, table) {
                                    Some(rp) => if derived_width(words) <= 16 && (forall|i: int|
                                        #![auto]
                                        0 <= i < 4096 ==> packed_index(words, derived_width(words), i)
                                            < rp.len()) {
                                        Some(
                                            ChunkAccum {
                                                blocks: Seq::new(
                                                    65536,
                                                    |j: int|
                                                        if so <= j < so + 4096 {
                                                            rp[packed_index(
                                                                words,
                                                                derived_width(words),
                                                                j - so,
                                                            ) as int]
                                                        } else {
                                                            st.blocks[j]
                                                        },
                                                ),
                                                ..st
                                            },
                                        )
                                    } else {
                                        None
                                    },
                                    None => None,
                                },
                                _ => None,
                            },
                            None => None,
                        },
                        _ => None,
                    },
                };
                match st1 {
                    None => None,
                    Some(st1) => {
                        let bl = lookup(entries, block_light_name());
                        let sl = lookup(entries, sky_light_name());
                        if bl is None && sl is None {
                            Some(st1)
                        } else {
                            match (nibbles(bl), nibbles(sl)) {
                                (Some(bb), Some(sb)) => Some(
                                    ChunkAccum {
                                        lights: Seq::new(
                                            65536,
                                            |j: int|
                                                if so <= j < so + 4096 {
                                                    combined_light(bb, sb, j - so)
                                                } else {
                                                    st1.lights[j]
                                                },
                                        ),
                                        present: st1.present.update(y as int, true),
                                        ..st1
                                    },
                                ),
                                _ => None,
                            }
                        }
                    },
                }
            },
            _ => None,
        },
        None => None,
    }
}

/// The state after decoding `count` section elements in sequence, and the
/// position just past the last, from the first element's position.
pub open spec fn sections_spec(
    data: Seq<u8>,
    pos: int,
    count: int,
    table: Seq<Seq<u8>>,
    st: ChunkAccum,
) -> Option<(ChunkAccum, int)>
    decreases count,
{
    if count <= 0 {
        Some((st, pos))
    } else {
        match materialize_spec(data, pos, section_names()) {
            None => None,
            Some((entries, p2)) => match apply_section(entries, table, st) {
                None => None,
                Some(st2) => sections_spec(data, p2, count - 1, table, st2),
            },
        }
    }
}

/// The state after the decoder's scan of the Level compound: Sections lists
/// and Biomes arrays are consumed as they occur, everything else skipped,
/// until the compound ends. A Biomes array is copied only when its length is
/// exactly 256.
pub open spec fn chunk_loop(
    data: Seq<u8>,
    pos: int,
    table: Seq<Seq<u8>>,
    st: ChunkAccum,
) -> Option<ChunkAccum>
    decreases data.len() - pos,
{
    match seek_spec(data, pos, seq![sections_name(), biomes_name()]) {
        None => None,
        Some(sk) => match sk {
            Seek::Absent { .. } => Some(st),
            Seek::Found { idx, code, at } => {
                if idx == 0 {
                    if code != 9 {
                        None
                    } else if at + 5 <= data.len() {
                        match sections_spec(data, at + 5, be32(data, at + 1), table, st) {
                            None => None,
                            Some((st2, p3)) => if pos < p3 <= data.len() {
                                chunk_loop(data, p3, table, st2)
                            } else {
                                None
                            },
                        }
                    } else {
                        None
                    }
                } else if code != 7 {
                    None
                } else {
                    match parse_payload(data, at, 7u8) {
                        Some(pv) => match pv.0 {
                            TagV::ByteArray(arr) => {
                                let st2 = if arr.len() == 256 {
                                    ChunkAccum { biomes: arr, ..st }
                                } else {
                                    st
                                };
                                if pos < pv.1 <= data.len() {
                                    chunk_loop(data, pv.1, table, st2)
                                } else {
                                    None
                                }
                            },
                            _ => None,
                        },
                        None => None,
                    }
                }
            },
        },
    }
}

/// A finished unit: the accumulated arrays with the light copy-down pass
/// applied.
pub open spec fn finish_accum(st: ChunkAccum) -> ChunkAccum {
    ChunkAccum { lights: Seq::new(65536, |j: int| gap_filled(st.lights, st.present, j)), ..st }
}

/// What decoding a unit's root payload yields: outer `None` for a malformed
/// payload, inner `None` for a unit without a Level compound (an absent
/// unit), otherwise the finished arrays.
pub open spec fn chunk_outcome(data: Seq<u8>, pos: int, table: Seq<Seq<u8>>) -> Option<
    Option<ChunkAccum>,
> {
    match seek_spec(data, pos, seq![level_name()]) {
        None => None,
        Some(sk) => match sk {
            Seek::Absent { .. } => Some(None),
            Seek::Found { code, at, .. } => if code != 10 {
                None
            } else {
                match chunk_loop(data, at, table, initial_accum()) {
                    None => None,
                    Some(st) => Some(Some(finish_accum(st))),
                }
            },
        },
    }
}

/// One decoded unit: 65536 block-type indices (y-major, then z, then x),
/// 65536 combined light bytes (block light in the high nibble, sky light in
/// the low), and 256 biome bytes (one per column).
#[derive(Debug, PartialEq)]
pub struct ChunkData {
    pub blocks: Vec<u16>,
    pub lights: Vec<u8>,
    pub biomes: Vec<u8>,
}

impl ChunkData {
    /// The three arrays always have their full fixed lengths.
    pub open spec fn wf(self) -> bool {
        self.blocks@.len() == 65536 && self.lights@.len() == 65536 && self.biomes@.len() == 256
    }

    /// True of the synthesized all-default unit: all blocks, light and
    /// biomes zero.
    pub open spec fn is_all_zero(self) -> bool {
        self.blocks@ == zero_blocks() && self.lights@ == zero_bytes(65536) && self.biomes@
            == zero_bytes(256)
    }

    /// The synthesized all-default unit that stands in for an absent
    /// neighbor: all zero, indistinguishable from all air.
    pub fn new_empty() -> (r: ChunkData)
        ensures
            r.wf(),
            r.is_all_zero(),
    {
        let blocks: Vec<u16> = vec![0u16; 65536];
        let lights: Vec<u8> = vec![0u8; 65536];
        let biomes: Vec<u8> = vec![0u8; 256];
        proof {
            assert(blocks@ =~= zero_blocks());
            assert(lights@ =~= zero_bytes(65536));
            assert(biomes@ =~= zero_bytes(256));
        }
        ChunkData { blocks, lights, biomes }
    }
}

/// The accumulated state the decoder's locals stand for.
pub open spec fn accum_of(
    blocks: Seq<u16>,
    lights: Seq<u8>,
    present: Seq<bool>,
    biomes: Seq<u8>,
) -> ChunkAccum {
    ChunkAccum { blocks, lights, present, biomes }
}

/// A materialized tag and its abstract value have the same variant.
pub proof fn lemma_tag_v_shape(t: Tag)
    ensures
        tag_v(t) is Byte <==> t is Byte,
        tag_v(t) is List <==> t is List,
        tag_v(t) is Compound <==> t is Compound,
        tag_v(t) is ByteArray <==> t is ByteArray,
        tag_v(t) is LongArray <==> t is LongArray,
        tag_v(t) is Str <==> t is Str,
{
    match t {
        Tag::End => {},
        Tag::Byte(_) => {},
        Tag::Short(_) => {},
        Tag::Int(_) => {},
        Tag::Long(_) => {},
        Tag::Float(_) => {},
        Tag::Double(_) => {},
        Tag::ByteArray(_) => {},
        Tag::Str(_) => {},
        Tag::List(_, _) => {},
        Tag::Compound(_) => {},
        Tag::IntArray(_) => {},
        Tag::LongArray(_) => {},
    }
}

/// Apply one materialized section to the unit's arrays, as `apply_section`
/// gives it. Fails exactly where `apply_section` is undefined; the arrays
/// keep their lengths either way.
fn decode_section(
    entries: &Vec<(Vec<u8>, Tag)>,
    blocknames: &Vec<Vec<u8>>,
    blocks: &mut Vec<u16>,
    lights: &mut Vec<u8>,
    present: &mut Vec<bool>,
    biomes: &Vec<u8>,
) -> (r: Result<(), DecodeError>)
    requires
        blocknames@.len() <= 0x1_0000,
        old(blocks)@.len() == 65536,
        old(lights)@.len() == 65536,
        old(present)@.len() == 16,
    ensures
        final(blocks)@.len() == 65536,
        final(lights)@.len() == 65536,
        final(present)@.len() == 16,
        ({
            let pre = accum_of(old(blocks)@, old(lights)@, old(present)@, biomes@);
            let post = accum_of(final(blocks)@, final(lights)@, final(present)@, biomes@);
            match r {
                Ok(()) => apply_section(entries_v(entries@), names_v(blocknames@), pre) == Some(
                    post,
                ),
                Err(_) => apply_section(entries_v(entries@), names_v(blocknames@), pre) is None,
            }
        }),
{
    let ghost entv = entries_v(entries@);
    let ghost table = names_v(blocknames@);
    let ghost pre = accum_of(blocks@, lights@, present@, biomes@);
    let y = match compound_get(entries, &name_axis_y()) {
        Some(t) => match t.to_u8() {
            Ok(b) => b,
            Err(e) => {
                proof {
                    lemma_tag_v_shape(*t);
                }
                return Err(e);
            },
        },
        None => {
            return Err(DecodeError::WrongTagType);
        },
    };
    if y > 15 {
        return Ok(());
    }
    let so = (y as usize) * 4096;
    let ghost so_s = so as int;
    match compound_get(entries, &name_block_states()) {
        Some(st_tag) => {
            let words = match st_tag.to_long_array() {
                Ok(w) => w,
                Err(e) => {
                    proof {
                        lemma_tag_v_shape(*st_tag);
                    }
                    return Err(e);
                },
            };
            let pal_tag = match compound_get(entries, &name_palette()) {
                Some(p) => p,
                None => {
                    return Err(DecodeError::WrongTagType);
                },
            };
            let pal = match pal_tag.to_list() {
                Ok(p) => p,
                Err(e) => {
                    proof {
                        lemma_tag_v_shape(*pal_tag);
                    }
                    return Err(e);
                },
            };
            let rp = match resolve_palette(pal, blocknames) {
                Ok(rp) => rp,
                Err(e) => {
                    return Err(e);
                },
            };
            match unpack_section_blocks(words, &rp, blocks, so) {
                Ok(()) => {},
                Err(e) => {
                    return Err(e);
                },
            }
            proof {
                let st1 = apply_blocks(entv, table, pre);
                assert(st1 matches Some(s1) && s1.blocks =~= blocks@ && s1.lights == lights@
                    && s1.present == present@ && s1.biomes == biomes@);
                assert(st1 matches Some(s1) && s1 =~= accum_of(
                    blocks@,
                    lights@,
                    present@,
                    biomes@,
                ));
            }
        },
        None => {},
    }
    let ghost mid = accum_of(blocks@, lights@, present@, biomes@);
    proof {
        assert(apply_blocks(entv, table, pre) == Some(mid));
    }
    let bl_tag = compound_get(entries, &name_block_light());
    let sl_tag = compound_get(entries, &name_sky_light());
    if bl_tag.is_some() || sl_tag.is_some() {
        let zeros: Vec<u8> = vec![0u8; 2048];
        proof {
            assert(zeros@ =~= zero_bytes(2048));
        }
        let bb: &Vec<u8> = match &bl_tag {
            Some(t) => match t.to_u8_array() {
                Ok(b) => b,
                Err(e) => {
                    proof {
                        lemma_tag_v_shape(**t);
                    }
                    return Err(e);
                },
            },
            None => &zeros,
        };
        if bb.len() != 2048 {
            return Err(DecodeError::BadLightArray);
        }
        let sb: &Vec<u8> = match &sl_tag {
            Some(t) => match t.to_u8_array() {
                Ok(b) => b,
                Err(e) => {
                    proof {
                        lemma_tag_v_shape(**t);
                    }
                    return Err(e);
                },
            },
            None => &zeros,
        };
        if sb.len() != 2048 {
            return Err(DecodeError::BadLightArray);
        }
        let ghost bbv = bb@;
        let ghost sbv = sb@;
        combine_section_lights(bb, sb, lights, so);
        present.set(y as usize, true);
        proof {
            assert(nibbles(lookup(entv, block_light_name())) == Some(bbv));
            assert(nibbles(lookup(entv, sky_light_name())) == Some(sbv));
            let fin = apply_section(entv, table, pre);
            assert(fin matches Some(f) && f.lights =~= lights@ && f.present =~= present@
                && f.blocks == blocks@ && f.biomes == biomes@);
            assert(fin matches Some(f) && f =~= accum_of(blocks@, lights@, present@, biomes@));
        }
    }
    Ok(())
}

/// The block half of `apply_section`: the state after the palette and
/// packed indices, before the light channels.
pub open spec fn apply_blocks(
    entries: Seq<(Seq<u8>, TagV)>,
    table: Seq<Seq<u8>>,
    st: ChunkAccum,
) -> Option<ChunkAccum> {
    match lookup(entries, axis_y_name()) {
        Some(yv) => match yv {
            TagV::Byte(y) => {
                let so = (y as int) * 4096;
                match lookup(entries, block_states_name()) {
                    None => Some(st),
                    Some(sv) => match sv {
                        TagV::LongArray(words) => match lookup(entries, palette_name()) {
                            Some(pv) => match pv {
                                TagV::List(ec, pal) => match resolve_palette_spec(pal, table) {
                                    Some(rp) => if derived_width(words) <= 16 && (forall|i: int|
                                        #![auto]
                                        0 <= i < 4096 ==> packed_index(words, derived_width(words), i)
                                            < rp.len()) {
                                        Some(
                                            ChunkAccum {
                                                blocks: Seq::new(
                                                    65536,
                                                    |j: int|
                                                        if so <= j < so + 4096 {
                                                            rp[packed_index(
                                                                words,
                                                                derived_width(words),
                                                                j - so,
                                                            ) as int]
                                                        } else {
                                                            st.blocks[j]
                                                        },
                                                ),
                                                ..st
                                            },
                                        )
                                    } else {
                                        None
                                    },
                                    None => None,
                                },
                                _ => None,
                            },
                            None => None,
                        },
                        _ => None,
                    },
                }
            },
            _ => None,
        },
        None => None,
    }
}


/// Read a Sections list at the cursor: its element count, then that many
/// section compounds, each applied to the unit's arrays.
fn read_sections_list(
    reader: &mut TagReader,
    blocknames: &Vec<Vec<u8>>,
    blocks: &mut Vec<u16>,
    lights: &mut Vec<u8>,
    present: &mut Vec<bool>,
    biomes: &Vec<u8>,
) -> (r: Result<(), DecodeError>)
    requires
        old(reader).wf(),
        blocknames@.len() <= 0x1_0000,
        old(blocks)@.len() == 65536,
        old(lights)@.len() == 65536,
        old(present)@.len() == 16,
    ensures
        final(reader).data == old(reader).data,
        final(reader).wf(),
        final(blocks)@.len() == 65536,
        final(lights)@.len() == 65536,
        final(present)@.len() == 16,
        ({
            let data = old(reader).data@;
            let pos = old(reader).pos as int;
            let table = names_v(blocknames@);
            let pre = accum_of(old(blocks)@, old(lights)@, old(present)@, biomes@);
            match r {
                Ok(()) => pos + 5 <= data.len() && sections_spec(
                    data,
                    pos + 5,
                    be32(data, pos + 1),
                    table,
                    pre,
                ) == Some(
                    (
                        accum_of(final(blocks)@, final(lights)@, final(present)@, biomes@),
                        final(reader).pos as int,
                    ),
                ) && pos < final(reader).pos <= data.len(),
                Err(_) => pos + 5 > data.len() || (pos + 5 <= data.len() && sections_spec(
                    data,
                    pos + 5,
                    be32(data, pos + 1),
                    table,
                    pre,
                ) is None),
            }
        }),
{
    let ghost data0 = reader.data@;
    let ghost pos_at = reader.pos as int;
    let ghost table = names_v(blocknames@);
    let ghost pre = accum_of(blocks@, lights@, present@, biomes@);
    let slen = match reader.read_list_length() {
        Err(e) => {
            return Err(e);
        },
        Ok(n) => n,
    };
    let ghost sec_target = sections_spec(data0, reader.pos as int, slen as int, table, pre);
    let mut names5: Vec<Vec<u8>> = Vec::new();
    names5.push(name_axis_y());
    names5.push(name_palette());
    names5.push(name_block_states());
    names5.push(name_block_light());
    names5.push(name_sky_light());
    proof {
        assert(names_v(names5@) =~= section_names());
    }
    let mut s: u32 = 0;
    while s < slen
        invariant
            s <= slen,
            reader.wf(),
            reader.data == old(reader).data,
            reader.data@ == data0,
            blocknames@.len() <= 0x1_0000,
            table == names_v(blocknames@),
            names_v(names5@) == section_names(),
            blocks@.len() == 65536,
            lights@.len() == 65536,
            present@.len() == 16,
            pos_at < reader.pos <= data0.len(),
            sections_spec(
                data0,
                reader.pos as int,
                (slen - s) as int,
                table,
                accum_of(blocks@, lights@, present@, biomes@),
            ) == sec_target,
            data0 == old(reader).data@,
            pos_at == old(reader).pos as int,
            pre == accum_of(old(blocks)@, old(lights)@, old(present)@, biomes@),
            sec_target == sections_spec(data0, pos_at + 5, be32(data0, pos_at + 1), table, pre),
            pos_at + 5 <= data0.len(),
            slen == be32(data0, pos_at + 1),
        decreases slen - s,
    {
        let ghost p_mat = reader.pos as int;
        let entries = match reader.read_compound_tag_names(&names5) {
            Err(e) => {
                return Err(e);
            },
            Ok(en) => en,
        };
        proof {
            crate::nbt::lemma_materialize_bounds(data0, p_mat, section_names());
        }
        match decode_section(&entries, blocknames, blocks, lights, present, biomes) {
            Ok(()) => {},
            Err(e) => {
                return Err(e);
            },
        }
        s = s + 1;
    }
    Ok(())
}

/// Decode one unit from a reader positioned at its root tag's payload.
///
/// `Ok(None)` when the payload has no Level compound (the unit is absent);
/// `Err` exactly when the payload is structurally malformed. On success the
/// arrays are what `chunk_outcome` gives for the reader's bytes.
#[verifier::rlimit(60)]
pub fn read_region_chunk(reader: &mut TagReader, blocknames: &Vec<Vec<u8>>) -> (r: Result<
    Option<ChunkData>,
    DecodeError,
>)
    requires
        old(reader).wf(),
        blocknames@.len() <= 0x1_0000,
    ensures
        final(reader).data == old(reader).data,
        final(reader).wf(),
        ({
            let outcome = chunk_outcome(
                old(reader).data@,
                old(reader).pos as int,
                names_v(blocknames@),
            );
            match r {
                Ok(c_opt) => match c_opt {
                    None => outcome == Some(None::<ChunkAccum>),
                    Some(c) => c.wf() && (outcome matches Some(Some(st)) && c.blocks@
                        == st.blocks && c.lights@ == st.lights && c.biomes@ == st.biomes),
                },
                Err(_) => outcome is None,
            }
        }),
{
    let ghost data0 = reader.data@;
    let ghost pos0 = reader.pos as int;
    let ghost table = names_v(blocknames@);

    match reader.seek_compound_tag_name(&name_level()) {
        Err(e) => {
            return Err(e);
        },
        Ok(None) => {
            return Ok(None);
        },
        Ok(Some(c)) => {
            if c != 10 {
                return Err(DecodeError::WrongTagType);
            }
        },
    }
    let ghost target = chunk_loop(data0, reader.pos as int, table, initial_accum());
    proof {
        assert(chunk_outcome(data0, pos0, table) == (match target {
            None => None::<Option<ChunkAccum>>,
            Some(st) => Some(Some(finish_accum(st))),
        }));
    }

    let mut blocks: Vec<u16> = vec![0u16; 65536];
    let mut lights: Vec<u8> = vec![0u8; 65536];
    let mut biomes: Vec<u8> = vec![0u8; 256];
    let mut present: Vec<bool> = vec![false; 16];
    proof {
        assert(blocks@ =~= zero_blocks());
        assert(lights@ =~= zero_bytes(65536));
        assert(biomes@ =~= zero_bytes(256));
        assert(present@ =~= Seq::new(16, |i: int| false));
        assert(accum_of(blocks@, lights@, present@, biomes@) =~= initial_accum());
    }

    let mut names2: Vec<Vec<u8>> = Vec::new();
    names2.push(name_sections());
    names2.push(name_biomes());
    proof {
        assert(names_v(names2@) =~= seq![sections_name(), biomes_name()]);
    }
    let mut names5: Vec<Vec<u8>> = Vec::new();
    names5.push(name_axis_y());
    names5.push(name_palette());
    names5.push(name_block_states());
    names5.push(name_block_light());
    names5.push(name_sky_light());
    proof {
        assert(names_v(names5@) =~= section_names());
    }

    loop
        invariant_except_break
            chunk_loop(
                data0,
                reader.pos as int,
                table,
                accum_of(blocks@, lights@, present@, biomes@),
            ) == target,
        invariant
            reader.wf(),
            reader.data == old(reader).data,
            reader.data@ == data0,
            blocknames@.len() <= 0x1_0000,
            table == names_v(blocknames@),
            names_v(names2@) == seq![sections_name(), biomes_name()],
            names_v(names5@) == section_names(),
            blocks@.len() == 65536,
            lights@.len() == 65536,
            biomes@.len() == 256,
            present@.len() == 16,
            chunk_outcome(data0, pos0, table) == (match target {
                None => None::<Option<ChunkAccum>>,
                Some(st) => Some(Some(finish_accum(st))),
            }),
            data0 == old(reader).data@,
            pos0 == old(reader).pos as int,
        ensures
            reader.wf(),
            reader.data == old(reader).data,
            reader.data@ == data0,
            blocks@.len() == 65536,
            lights@.len() == 65536,
            biomes@.len() == 256,
            present@.len() == 16,
            target == Some(accum_of(blocks@, lights@, present@, biomes@)),
            chunk_outcome(data0, pos0, table) == Some(
                Some(finish_accum(accum_of(blocks@, lights@, present@, biomes@))),
            ),
        decreases data0.len() - reader.pos,
    {
        let ghost p_before = reader.pos as int;
        let ghost cur0 = accum_of(blocks@, lights@, present@, biomes@);
        let hit = match reader.seek_compound_tag_names(&names2) {
            Err(e) => {
                return Err(e);
            },
            Ok(h) => h,
        };
        match hit {
            None => {
                break ;
            },
            Some((i, code)) => {
                proof {
                    crate::nbt::lemma_seek_bounds(data0, p_before, names_v(names2@));
                }
                if i == 0 {
                    if code != 9 {
                        return Err(DecodeError::WrongTagType);
                    }
                    match read_sections_list(
                        reader,
                        blocknames,
                        &mut blocks,
                        &mut lights,
                        &mut present,
                        &biomes,
                    ) {
                        Ok(()) => {},
                        Err(e) => {
                            return Err(e);
                        },
                    }
                } else {
                    if code != 7 {
                        return Err(DecodeError::WrongTagType);
                    }
                    let ghost at = reader.pos as int;
                    let arr = match reader.read_u8_array() {
                        Err(e) => {
                            return Err(e);
                        },
                        Ok(a) => a,
                    };
                    proof {
                        crate::nbt::lemma_parse_payload_bounds(data0, at, 7u8);
                    }
                    if arr.len() == 256 {
                        biomes = arr;
                        proof {
                            assert(accum_of(blocks@, lights@, present@, biomes@) =~= ChunkAccum {
                                biomes: biomes@,
                                ..cur0
                            });
                        }
                    }
                }
            },
        }
    }
    let ghost cur_exit = accum_of(blocks@, lights@, present@, biomes@);
    fill_light_gaps(&mut lights, &present);
    proof {
        assert(lights@ =~= finish_accum(cur_exit).lights);
    }
    let c = ChunkData { blocks, lights, biomes };
    Ok(Some(c))
}


/// A decoded root payload: its root header, then the unit decode at the
/// root's payload. `None` both for a malformed payload and for a unit
/// without a Level compound: either way the slot holds no unit.
pub open spec fn root_chunk(payload: Seq<u8>, table: Seq<Seq<u8>>) -> Option<ChunkAccum> {
    match crate::nbt::parse_header(payload, 0) {
        None => None,
        Some((c, nm, p)) => match chunk_outcome(payload, p, table) {
            None => None,
            Some(o) => o,
        },
    }
}

/// True when slot (x, z) lies within the margins: `n`/`w` rows and columns
/// are cut from the low edges, `s`/`e` from the high ones.
pub open spec fn in_margins(m: Edges<usize>, x: int, z: int) -> bool {
    m.w <= x < 32 - m.e && m.n <= z < 32 - m.s
}

/// What one slot of a decoded grid must hold, given the container file's
/// bytes: absent outside the margins, absent for an unallocated slot, and
/// otherwise exactly what decompressing and decoding the slot gives. A slot
/// whose payload fails to decode as a unit is absent; a slot whose header,
/// scheme or table entry cannot be read at all never yields a grid (the
/// whole container fails instead).
pub open spec fn grid_slot_ok(
    file: Seq<u8>,
    x: int,
    z: int,
    m: Edges<usize>,
    table: Seq<Seq<u8>>,
    slot: Option<ChunkData>,
) -> bool {
    if !in_margins(m, x, z) {
        slot is None
    } else if 4 * (z * 32 + x) + 4 <= file.len() {
        let off = slot_offset(file, x, z);
        if off == 0 {
            slot is None
        } else if slot_header_ok(file, off) && slot_scheme(file, off) == 2 {
            match root_chunk(inflate_of(slot_payload(file, off)), table) {
                Some(st) => slot matches Some(c) && c.wf() && c.blocks@ == st.blocks && c.lights@
                    == st.lights && c.biomes@ == st.biomes,
                None => slot is None,
            }
        } else {
            false
        }
    } else {
        false
    }
}

/// True when slot `i` (row-major) falls inside the margins and cannot be
/// opened: an unreadable table entry, a header that does not fit the file, a
/// non-standard scheme byte, or a payload the decompressor rejects. Reading
/// a container fails exactly when such a slot exists.
pub open spec fn slot_bad(file: Seq<u8>, m: Edges<usize>, i: int) -> bool {
    in_margins(m, i % 32, i / 32) && !crate::container::slot_openable(file, i % 32, i / 32)
}

/// True when some slot of the file inside the margins cannot be opened; an
/// absent file has no bad slot.
pub open spec fn has_bad_slot(file: Option<Vec<u8>>, m: Edges<usize>) -> bool {
    match file {
        None => false,
        Some(bytes) => exists|i: int| 0 <= i < 1024 && #[trigger] slot_bad(bytes@, m, i),
    }
}

/// Decode every slot of a container within the margins into a 32 x 32 grid,
/// indexed by `z * 32 + x`. An absent container (`None`) gives an all-absent
/// grid. A slot whose unit is absent or fails to decode stays absent; a slot
/// whose table entry, length, scheme or decompression fails aborts the whole
/// container — and only such a slot does.
pub fn read_region_chunk_data(
    file: &Option<Vec<u8>>,
    margins: &Edges<usize>,
    blocknames: &Vec<Vec<u8>>,
) -> (r: Result<Vec<Option<ChunkData>>, DecodeError>)
    requires
        margins.e <= 32,
        margins.s <= 32,
        blocknames@.len() <= 0x1_0000,
    ensures
        match r {
            Ok(grid) => !has_bad_slot(*file, *margins) && grid@.len() == 1024 && match *file {
                None => forall|i: int| 0 <= i < 1024 ==> #[trigger] grid@[i] is None,
                Some(bytes) => forall|i: int|
                    0 <= i < 1024 ==> grid_slot_ok(
                        bytes@,
                        i % 32,
                        i / 32,
                        *margins,
                        names_v(blocknames@),
                        #[trigger] grid@[i],
                    ),
            },
            Err(_) => has_bad_slot(*file, *margins),
        },
{
    let mut grid: Vec<Option<ChunkData>> = Vec::new();
    match file {
        None => {
            let mut i: usize = 0;
            while i < 1024
                invariant
                    i <= 1024,
                    grid@.len() == i,
                    forall|k: int| 0 <= k < i ==> grid@[k] is None,
                decreases 1024 - i,
            {
                grid.push(None);
                i = i + 1;
            }
            Ok(grid)
        },
        Some(bytes) => {
            let mut k: usize = 0;
            while k < 1024
                invariant
                    k <= 1024,
                    grid@.len() == k,
                    file is Some,
                    *file matches Some(fb) && fb == *bytes,
                    margins.e <= 32,
                    margins.s <= 32,
                    blocknames@.len() <= 0x1_0000,
                    forall|i: int| 0 <= i < k ==> !#[trigger] slot_bad(bytes@, *margins, i),
                    forall|i: int|
                        0 <= i < k ==> grid_slot_ok(
                            bytes@,
                            i % 32,
                            i / 32,
                            *margins,
                            names_v(blocknames@),
                            #[trigger] grid@[i],
                        ),
                decreases 1024 - k,
            {
                let cz = k / 32;
                let cx = k % 32;
                proof {
                    vstd::arithmetic::div_mod::lemma_fundamental_div_mod(k as int, 32);
                    vstd::arithmetic::div_mod::lemma_mod_bound(k as int, 32);
                }
                let inside = cx >= margins.w && cx < 32 - margins.e && cz >= margins.n && cz < 32
                    - margins.s;
                let slot: Option<ChunkData> = if inside {
                    match crate::container::open_slot(bytes, cx, cz) {
                        Err(e) => {
                            proof {
                                assert(slot_bad(bytes@, *margins, k as int));
                            }
                            return Err(e);
                        },
                        Ok(None) => None,
                        Ok(Some(payload)) => {
                            let mut reader = TagReader::new(payload);
                            match reader.read_tag_header() {
                                Err(_) => None,
                                Ok(_) => {
                                    match read_region_chunk(&mut reader, blocknames) {
                                        Err(_) => None,
                                        Ok(None) => None,
                                        Ok(Some(c)) => Some(c),
                                    }
                                },
                            }
                        },
                    }
                } else {
                    None
                };
                proof {
                    assert(!slot_bad(bytes@, *margins, k as int));
                    assert(grid_slot_ok(
                        bytes@,
                        k as int % 32,
                        k as int / 32,
                        *margins,
                        names_v(blocknames@),
                        slot,
                    ));
                }
                grid.push(slot);
                k = k + 1;
            }
            Ok(grid)
        },
    }
}

/// A decoded container: its own unit grid and the grids of its four
/// neighbors' border strips, plus the synthesized all-default unit that
/// stands in for an absent neighbor.
pub struct Region {
    pub chunks: Vec<Option<ChunkData>>,
    pub nchunks: Edges<Vec<Option<ChunkData>>>,
    pub empty: ChunkData,
}

/// A unit and non-owning views of its four cardinal neighbors.
pub struct Chunk<'a> {
    pub data: &'a ChunkData,
    pub ndata: Edges<&'a ChunkData>,
}

/// Every unit of a grid is fully populated.
pub open spec fn grid_wf(g: Seq<Option<ChunkData>>) -> bool {
    g.len() == 1024 && forall|i: int| #![auto] 0 <= i < 1024 && g[i] is Some ==> g[i]->0.wf()
}

/// The unit of a grid at (x, z), or the stand-in when the slot is absent.
pub open spec fn grid_or(g: Seq<Option<ChunkData>>, x: int, z: int, e: ChunkData) -> ChunkData {
    match g[z * 32 + x] {
        Some(c) => c,
        None => e,
    }
}

impl Region {
    /// The five grids are full 32 x 32 grids of populated units, and the
    /// stand-in unit is the all-zero default.
    pub open spec fn wf(self) -> bool {
        &&& grid_wf(self.chunks@)
        &&& grid_wf(self.nchunks.n@)
        &&& grid_wf(self.nchunks.e@)
        &&& grid_wf(self.nchunks.s@)
        &&& grid_wf(self.nchunks.w@)
        &&& self.empty.wf()
        &&& self.empty.is_all_zero()
    }

    /// The north neighbor of unit (x, z): the unit above it in this
    /// container, or the southmost unit of the north neighbor container at
    /// the container edge; the all-zero stand-in when absent.
    pub open spec fn neighbor_n(self, x: int, z: int) -> ChunkData {
        if z == 0 {
            grid_or(self.nchunks.n@, x, 31, self.empty)
        } else {
            grid_or(self.chunks@, x, z - 1, self.empty)
        }
    }

    /// The east neighbor of unit (x, z); see `neighbor_n`.
    pub open spec fn neighbor_e(self, x: int, z: int) -> ChunkData {
        if x == 31 {
            grid_or(self.nchunks.e@, 0, z, self.empty)
        } else {
            grid_or(self.chunks@, x + 1, z, self.empty)
        }
    }

    /// The south neighbor of unit (x, z); see `neighbor_n`.
    pub open spec fn neighbor_s(self, x: int, z: int) -> ChunkData {
        if z == 31 {
            grid_or(self.nchunks.s@, x, 0, self.empty)
        } else {
            grid_or(self.chunks@, x, z + 1, self.empty)
        }
    }

    /// The west neighbor of unit (x, z); see `neighbor_n`.
    pub open spec fn neighbor_w(self, x: int, z: int) -> ChunkData {
        if x == 0 {
            grid_or(self.nchunks.w@, 31, z, self.empty)
        } else {
            grid_or(self.chunks@, x - 1, z, self.empty)
        }
    }

    /// Assemble the unit at `c` with its four cardinal neighbors. A
    /// neighbor beyond the container edge comes from the matching border
    /// strip of the adjacent container; an absent neighbor is the all-zero
    /// stand-in, indistinguishable from all air.
    pub fn get_chunk(&self, c: &Pair<usize>) -> (r: Chunk)
        requires
            self.wf(),
            c.x < 32,
            c.z < 32,
            self.chunks@[c.z as int * 32 + c.x as int] is Some,
        ensures
            *r.data == self.chunks@[c.z as int * 32 + c.x as int]->0,
            *r.ndata.n == self.neighbor_n(c.x as int, c.z as int),
            *r.ndata.e == self.neighbor_e(c.x as int, c.z as int),
            *r.ndata.s == self.neighbor_s(c.x as int, c.z as int),
            *r.ndata.w == self.neighbor_w(c.x as int, c.z as int),
            r.data.wf(),
            r.ndata.n.wf() && r.ndata.e.wf() && r.ndata.s.wf() && r.ndata.w.wf(),
    {
        let data = match &self.chunks[c.z * 32 + c.x] {
            Some(d) => d,
            None => &self.empty,
        };
        let n = if c.z == 0 {
            self.grid_at(&self.nchunks.n, c.x, 31)
        } else {
            self.grid_at(&self.chunks, c.x, c.z - 1)
        };
        let e = if c.x == 31 {
            self.grid_at(&self.nchunks.e, 0, c.z)
        } else {
            self.grid_at(&self.chunks, c.x + 1, c.z)
        };
        let s = if c.z == 31 {
            self.grid_at(&self.nchunks.s, c.x, 0)
        } else {
            self.grid_at(&self.chunks, c.x, c.z + 1)
        };
        let w = if c.x == 0 {
            self.grid_at(&self.nchunks.w, 31, c.z)
        } else {
            self.grid_at(&self.chunks, c.x - 1, c.z)
        };
        Chunk { data, ndata: Edges { n, e, s, w } }
    }

    /// The unit of a grid at (x, z), or the stand-in when the slot is
    /// absent.
    fn grid_at<'a>(&'a self, g: &'a Vec<Option<ChunkData>>, x: usize, z: usize) -> (r:
        &'a ChunkData)
        requires
            g@.len() == 1024,
            x < 32,
            z < 32,
        ensures
            *r == grid_or(g@, x as int, z as int, self.empty),
    {
        match &g[z * 32 + x] {
            Some(c) => c,
            None => &self.empty,
        }
    }
}

/// Decode a container together with the border strips of its four
/// neighbors: the neighbor containers are read only along the single row or
/// column that borders this container. `Ok(None)` when the container file
/// itself is absent; an absent neighbor file gives an all-absent strip.
pub fn read_region_data(
    file: &Option<Vec<u8>>,
    nfiles: &Edges<Option<Vec<u8>>>,
    blocknames: &Vec<Vec<u8>>,
) -> (r: Result<Option<Region>, DecodeError>)
    requires
        blocknames@.len() <= 0x1_0000,
    ensures
        match r {
            Ok(reg_opt) => match reg_opt {
                None => file is None,
                Some(reg) => {
                    let table = names_v(blocknames@);
                    &&& file is Some
                    &&& reg.wf()
                    &&& (match *file {
                        Some(bytes) => forall|i: int|
                            0 <= i < 1024 ==> grid_slot_ok(
                                bytes@,
                                i % 32,
                                i / 32,
                                Edges { n: 0usize, e: 0usize, s: 0usize, w: 0usize },
                                table,
                                #[trigger] reg.chunks@[i],
                            ),
                        None => false,
                    })
                    &&& grid_matches(nfiles.n, Edges { n: 31usize, e: 0usize, s: 0usize, w: 0usize }, table, reg.nchunks.n@)
                    &&& grid_matches(nfiles.e, Edges { n: 0usize, e: 31usize, s: 0usize, w: 0usize }, table, reg.nchunks.e@)
                    &&& grid_matches(nfiles.s, Edges { n: 0usize, e: 0usize, s: 31usize, w: 0usize }, table, reg.nchunks.s@)
                    &&& grid_matches(nfiles.w, Edges { n: 0usize, e: 0usize, s: 0usize, w: 31usize }, table, reg.nchunks.w@)
                    &&& reg.empty.is_all_zero()
                    &&& !has_bad_slot(*file, Edges { n: 0usize, e: 0usize, s: 0usize, w: 0usize })
                    &&& !has_bad_slot(nfiles.n, Edges { n: 31usize, e: 0usize, s: 0usize, w: 0usize })
                    &&& !has_bad_slot(nfiles.e, Edges { n: 0usize, e: 31usize, s: 0usize, w: 0usize })
                    &&& !has_bad_slot(nfiles.s, Edges { n: 0usize, e: 0usize, s: 31usize, w: 0usize })
                    &&& !has_bad_slot(nfiles.w, Edges { n: 0usize, e: 0usize, s: 0usize, w: 31usize })
                },
            },
            Err(_) => file is Some && {
                ||| has_bad_slot(*file, Edges { n: 0usize, e: 0usize, s: 0usize, w: 0usize })
                ||| has_bad_slot(nfiles.n, Edges { n: 31usize, e: 0usize, s: 0usize, w: 0usize })
                ||| has_bad_slot(nfiles.e, Edges { n: 0usize, e: 31usize, s: 0usize, w: 0usize })
                ||| has_bad_slot(nfiles.s, Edges { n: 0usize, e: 0usize, s: 31usize, w: 0usize })
                ||| has_bad_slot(nfiles.w, Edges { n: 0usize, e: 0usize, s: 0usize, w: 31usize })
            },
        },
{
    match file {
        None => {
            return Ok(None);
        },
        Some(_) => {},
    }
    let zero_m = Edges { n: 0usize, e: 0usize, s: 0usize, w: 0usize };
    let chunks = match read_region_chunk_data(file, &zero_m, blocknames) {
        Ok(g) => g,
        Err(e) => {
            return Err(e);
        },
    };
    let n = match read_region_chunk_data(
        &nfiles.n,
        &Edges { n: 31usize, e: 0usize, s: 0usize, w: 0usize },
        blocknames,
    ) {
        Ok(g) => g,
        Err(e) => {
            return Err(e);
        },
    };
    let e = match read_region_chunk_data(
        &nfiles.e,
        &Edges { n: 0usize, e: 31usize, s: 0usize, w: 0usize },
        blocknames,
    ) {
        Ok(g) => g,
        Err(er) => {
            return Err(er);
        },
    };
    let s2 = match read_region_chunk_data(
        &nfiles.s,
        &Edges { n: 0usize, e: 0usize, s: 31usize, w: 0usize },
        blocknames,
    ) {
        Ok(g) => g,
        Err(er) => {
            return Err(er);
        },
    };
    let w = match read_region_chunk_data(
        &nfiles.w,
        &Edges { n: 0usize, e: 0usize, s: 0usize, w: 31usize },
        blocknames,
    ) {
        Ok(g) => g,
        Err(er) => {
            return Err(er);
        },
    };
    let reg = Region {
        chunks,
        nchunks: Edges { n, e, s: s2, w },
        empty: ChunkData::new_empty(),
    };
    proof {
        lemma_grid_slots_wf(reg.chunks@);
        lemma_grid_slots_wf(reg.nchunks.n@);
        lemma_grid_slots_wf(reg.nchunks.e@);
        lemma_grid_slots_wf(reg.nchunks.s@);
        lemma_grid_slots_wf(reg.nchunks.w@);
    }
    Ok(Some(reg))
}

/// What a neighbor grid holds for a possibly absent neighbor file: all
/// absent without the file, else per-slot what the file's bytes give.
pub open spec fn grid_matches(
    file: Option<Vec<u8>>,
    m: Edges<usize>,
    table: Seq<Seq<u8>>,
    grid: Seq<Option<ChunkData>>,
) -> bool {
    grid.len() == 1024 && match file {
        None => forall|i: int| 0 <= i < 1024 ==> #[trigger] grid[i] is None,
        Some(bytes) => forall|i: int|
            0 <= i < 1024 ==> grid_slot_ok(bytes@, i % 32, i / 32, m, table, #[trigger] grid[i]),
    }
}

/// A grid every slot of which satisfies its per-slot condition holds only
/// populated units.
proof fn lemma_grid_slots_wf(g: Seq<Option<ChunkData>>)
    requires
        g.len() == 1024,
        forall|i: int| 0 <= i < 1024 ==> (#[trigger] g[i] matches Some(c) ==> c.wf()),
    ensures
        grid_wf(g),
{
}

} // verus!
