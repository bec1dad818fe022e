//! The library's general guarantees, stated and proved once over all
//! inputs. Each law is a public proof function whose hypotheses are only
//! the shapes it speaks about.

use vstd::prelude::*;

use crate::container::{lemma_occupied_upto_membership, occupied_upto};
use crate::names::{biomes_name, level_name};
use crate::nbt::{
    be16, be32, code_of, enc_payload, enc_wf, lemma_enc_parses, parse_header, parse_payload,
    seek_spec, Seek, TagV,
};
use crate::pack::derived_width;
use crate::region::biomes_outcome;
use crate::region2::{zero_bytes, Region};
use crate::section::{above_layer, gap_filled};
use crate::types::Edges;

verus! {

/// A container with a fully zeroed location table has no occupied slot: the
/// enumeration over any bounds yields no coordinates.
pub proof fn lemma_zero_table_no_coords(data: Seq<u8>, limits: Option<Edges<usize>>)
    requires
        forall|p: int| 0 <= p < 1024 ==> #[trigger] be32(data, 4 * p) == 0,
    ensures
        occupied_upto(data, limits, 1024).len() == 0,
{
    let s = occupied_upto(data, limits, 1024);
    if s.len() > 0 {
        let p = s[0];
        assert(s.contains(p));
        lemma_occupied_upto_membership(data, limits, 1024, p);
        assert(be32(data, 4 * (p.z * 32 + p.x)) == 0);
    }
}

/// Skipping an encoded value of any type, however deeply nested, consumes
/// exactly the value's bytes: the sibling header that follows it is then
/// read intact, with its type code and name.
pub proof fn lemma_skip_then_sibling_header(
    data: Seq<u8>,
    pos: int,
    t: TagV,
    c2: u8,
    name2: Seq<u8>,
)
    requires
        enc_wf(t),
        0 <= pos,
        c2 != 0,
        name2.len() < 0x1_0000,
        pos + enc_payload(t).len() + 3 + name2.len() <= data.len(),
        data.subrange(pos, pos + enc_payload(t).len()) == enc_payload(t),
        data[pos + enc_payload(t).len()] == c2,
        be16(data, pos + enc_payload(t).len() + 1) == name2.len(),
        data.subrange(
            pos + enc_payload(t).len() + 3,
            pos + enc_payload(t).len() + 3 + name2.len(),
        ) == name2,
    ensures
        parse_payload(data, pos, code_of(t)) == Some((t, pos + enc_payload(t).len())),
        parse_header(data, pos + enc_payload(t).len()) == Some(
            (c2, name2, pos + enc_payload(t).len() + 3 + name2.len()),
        ),
{
    lemma_enc_parses(data, pos, t);
}

/// Above a section, when only the topmost section has light data, stands
/// the top section's bottom layer.
proof fn lemma_above_from_top(lights: Seq<u8>, present: Seq<bool>, y: int)
    requires
        present.len() == 16,
        present[15],
        -1 <= y <= 14,
        forall|k: int| y < k < 15 ==> !present[k],
    ensures
        above_layer(lights, present, y) == lights.subrange((15 * 4096) as int, (15 * 4096 + 256) as int),
    decreases 15 - y,
{
    if y < 14 {
        lemma_above_from_top(lights, present, y + 1);
    }
}

/// For a unit with light data only in its topmost section, every voxel of
/// every lower section takes, after gap filling, the value of the top
/// section's bottom layer at its column: the lower sections equal that
/// layer, layer for layer.
pub proof fn lemma_light_copydown_from_top(lights: Seq<u8>, present: Seq<bool>, j: int)
    requires
        present.len() == 16,
        lights.len() == 65536,
        present[15],
        forall|y: int| 0 <= y < 15 ==> !present[y],
        0 <= j < 15 * 4096,
    ensures
        gap_filled(lights, present, j) == lights[15 * 4096 + (j % 256)],
{
    let y = j / 4096;
    assert(0 <= y < 15) by {
        vstd::arithmetic::div_mod::lemma_fundamental_div_mod(j, 4096);
        vstd::arithmetic::div_mod::lemma_mod_bound(j, 4096);
    }
    lemma_above_from_top(lights, present, y);
    vstd::arithmetic::div_mod::lemma_mod_bound(j, 256);
    assert(above_layer(lights, present, y)[j % 256] == lights[15 * 4096 + (j % 256)]);
}

/// A section without light data of its own takes, for every voxel, the
/// value of the nearest resolved section above it, at the voxel's column of
/// that section's bottom layer.
pub proof fn lemma_light_copydown_nearest(lights: Seq<u8>, present: Seq<bool>, j: int, ya: int)
    requires
        present.len() == 16,
        lights.len() == 65536,
        0 <= j < 65536,
        !present[j / 4096],
        j / 4096 < ya <= 15,
        present[ya],
        forall|k: int| j / 4096 < k < ya ==> !present[k],
    ensures
        gap_filled(lights, present, j) == lights[ya * 4096 + (j % 256)],
{
    let y = j / 4096;
    assert(0 <= y <= 15) by {
        vstd::arithmetic::div_mod::lemma_fundamental_div_mod(j, 4096);
        vstd::arithmetic::div_mod::lemma_mod_bound(j, 4096);
    }
    lemma_above_resolved(lights, present, y, ya);
    vstd::arithmetic::div_mod::lemma_mod_bound(j, 256);
    assert(above_layer(lights, present, y)[j % 256] == lights[ya * 4096 + (j % 256)]);
}

/// Above a section whose next resolved section upward is `ya` stands the
/// bottom layer of `ya`.
proof fn lemma_above_resolved(lights: Seq<u8>, present: Seq<bool>, y: int, ya: int)
    requires
        present.len() == 16,
        -1 <= y < ya <= 15,
        present[ya],
        forall|k: int| y < k < ya ==> !present[k],
    ensures
        above_layer(lights, present, y) == lights.subrange(ya * 4096, ya * 4096 + 256),
    decreases ya - y,
{
    if y + 1 < ya {
        lemma_above_resolved(lights, present, y + 1, ya);
    }
}

/// A section with no resolved section above it at all takes full sky light
/// and no block light, the outdoor default, on every voxel.
pub proof fn lemma_light_unresolved_top_default(lights: Seq<u8>, present: Seq<bool>, j: int)
    requires
        present.len() == 16,
        lights.len() == 65536,
        0 <= j < 65536,
        forall|k: int| j / 4096 <= k <= 15 ==> !present[k],
    ensures
        gap_filled(lights, present, j) == 0x0f,
{
    let y = j / 4096;
    assert(0 <= y <= 15) by {
        vstd::arithmetic::div_mod::lemma_fundamental_div_mod(j, 4096);
        vstd::arithmetic::div_mod::lemma_mod_bound(j, 4096);
    }
    lemma_above_default(lights, present, y);
    vstd::arithmetic::div_mod::lemma_mod_bound(j, 256);
    assert(above_layer(lights, present, y)[j % 256] == 0x0f);
}

/// Above a section with no resolved section upward stands the outdoor
/// default layer.
proof fn lemma_above_default(lights: Seq<u8>, present: Seq<bool>, y: int)
    requires
        present.len() == 16,
        -1 <= y <= 15,
        forall|k: int| y < k <= 15 ==> !present[k],
    ensures
        above_layer(lights, present, y) == Seq::new(256, |i: int| 0x0fu8),
    decreases 15 - y,
{
    if y < 15 {
        lemma_above_default(lights, present, y + 1);
    }
}

/// A unit assembled on the container's east edge, when the east neighbor
/// container contributed no units at all, gets the synthesized all-zero
/// stand-in as its east neighbor: absence is never an error and looks like
/// all air.
pub proof fn lemma_absent_east_neighbor_is_zero(reg: Region, z: int)
    requires
        reg.wf(),
        0 <= z < 32,
        forall|i: int| 0 <= i < 1024 ==> #[trigger] reg.nchunks.e@[i] is None,
    ensures
        reg.neighbor_e(31, z).is_all_zero(),
        reg.neighbor_e(31, z).wf(),
{
    assert(reg.nchunks.e@[z * 32 + 0] is None);
}

/// The packed bit width comes from the stored word count alone — the
/// palette never enters it: `w` words decode at width `w / 64`, and the 256
/// words a 16-entry palette is stored in decode at width 4.
pub proof fn lemma_width_from_word_count(words: Seq<u64>)
    ensures
        derived_width(words) == words.len() / 64,
        words.len() == 256 ==> derived_width(words) == 4,
{
}

/// Only a biome array of length exactly 256 reaches the unit's biome
/// array; one of length 255 or 257 — any other length — leaves the all-zero
/// default.
pub proof fn lemma_biome_length_guard(
    data: Seq<u8>,
    pos: int,
    a1: int,
    a2: int,
    arr: Seq<u8>,
    end: int,
)
    requires
        seek_spec(data, pos, seq![level_name()]) matches Some(Seek::Found { code, at, .. })
            && code == 10 && at == a1,
        seek_spec(data, a1, seq![biomes_name()]) matches Some(Seek::Found { code, at, .. })
            && code == 7 && at == a2,
        parse_payload(data, a2, 7u8) == Some((TagV::ByteArray(arr), end)),
    ensures
        biomes_outcome(data, pos) == Some(
            Some(
                if arr.len() == 256 {
                    arr
                } else {
                    zero_bytes(256)
                },
            ),
        ),
{
}

} // verus!
