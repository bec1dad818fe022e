//! Per-aspect decoding of a container: block, light and biome arrays each
//! extracted on their own pass, keyed by in-container chunk position, and
//! the container-filename coordinate pattern.

use vstd::prelude::*;
use vstd::string::StringSliceAdditionalSpecFns;

use crate::container::{inflate_of, slot_header_ok, slot_offset, slot_payload, slot_scheme};
use crate::error::DecodeError;
use crate::names::{
    axis_y_name, biomes_name, block_light_name, block_states_name, level_name, name_axis_y,
    name_biomes, name_block_light, name_block_states, name_level, name_palette, name_sections,
    name_sky_light, palette_name, sections_name, sky_light_name,
};
use crate::nbt::{
    be32, entries_v, lookup, names_v, Seek, Tag, TagReader, TagV, compound_get, seek_spec,
    materialize_spec, parse_payload,
};
use crate::pack::{derived_width, packed_index, unpack_section_blocks};
use crate::region2::{has_bad_slot, slot_bad, zero_blocks, zero_bytes};
use crate::section::{
    combine_section_lights, combined_light, fill_light_gaps, gap_filled, resolve_palette,
    resolve_palette_spec,
};
use crate::types::{Edges, Pair};

verus! {

/// The position of the last `b` strictly before `upto`.
pub open spec fn rfind_byte(s: Seq<u8>, b: u8, upto: int) -> Option<int>
    decreases upto,
{
    if upto <= 0 || upto > s.len() {
        None
    } else if s[upto - 1] == b {
        Some(upto - 1)
    } else {
        rfind_byte(s, b, upto - 1)
    }
}

/// The value of a digit string, most significant digit first.
pub open spec fn digits_val(t: Seq<u8>) -> int
    decreases t.len(),
{
    if t.len() == 0 {
        0
    } else {
        digits_val(t.drop_last()) * 10 + (t.last() - 48)
    }
}

/// True when every byte is a decimal digit.
pub open spec fn all_digits(t: Seq<u8>) -> bool {
    forall|i: int| 0 <= i < t.len() ==> 48 <= #[trigger] t[i] <= 57
}

/// The integer a decimal literal denotes: an optional leading minus, then
/// at least one digit.
pub open spec fn int_lit_val(t: Seq<u8>) -> Option<int> {
    if t.len() >= 2 && t[0] == 45 && all_digits(t.skip(1)) {
        Some(-digits_val(t.skip(1)))
    } else if t.len() >= 1 && all_digits(t) {
        Some(digits_val(t))
    } else {
        None
    }
}

/// The coordinates a container filename denotes. The name must end in
/// `r.<x>.<z>.mca` — anything may precede the `r` — with both coordinates
/// decimal literals within the range of 32-bit signed integers. Since a
/// literal holds no dot, the structure is fixed from the end: the `.mca`
/// tail, the two dot-delimited literal segments, then the `r.` that
/// introduces them.
pub open spec fn region_name_coords(s: Seq<u8>) -> Option<(int, int)> {
    let n = s.len() as int;
    if n >= 4 && s[n - 4] == 46 && s[n - 3] == 109 && s[n - 2] == 99 && s[n - 1] == 97 {
        match rfind_byte(s, 46, n - 4) {
            None => None,
            Some(d2) => match rfind_byte(s, 46, d2) {
                None => None,
                Some(d1) => {
                    if d1 >= 1 && s[d1 - 1] == 114 {
                        match (int_lit_val(s.subrange(d1 + 1, d2)), int_lit_val(
                            s.subrange(d2 + 1, n - 4),
                        )) {
                            (Some(x), Some(z)) => {
                                if -0x8000_0000 <= x <= 0x7fff_ffff && -0x8000_0000 <= z
                                    <= 0x7fff_ffff {
                                    Some((x, z))
                                } else {
                                    None
                                }
                            },
                            _ => None,
                        }
                    } else {
                        None
                    }
                },
            },
        }
    } else {
        None
    }
}

/// A digit string's value never shrinks as digits are appended.
proof fn lemma_digits_val_monotone(t: Seq<u8>, i: int)
    requires
        0 <= i <= t.len(),
        all_digits(t),
    ensures
        digits_val(t) >= digits_val(t.take(i)),
        digits_val(t) >= 0,
    decreases t.len() - i,
{
    if i == t.len() {
        assert(t.take(i) =~= t);
        lemma_digits_val_nonneg(t);
    } else {
        lemma_digits_val_monotone(t, i + 1);
        assert(t.take(i + 1).drop_last() =~= t.take(i));
        lemma_digits_val_nonneg(t.take(i));
    }
}

/// A digit string's value is never negative.
proof fn lemma_digits_val_nonneg(t: Seq<u8>)
    requires
        all_digits(t),
    ensures
        digits_val(t) >= 0,
    decreases t.len(),
{
    if t.len() > 0 {
        assert(all_digits(t.drop_last()));
        lemma_digits_val_nonneg(t.drop_last());
    }
}

/// Parse the digits of `s` from `from` to `to`, bounded by the magnitude a
/// 32-bit coordinate can have.
fn parse_digits(s: &Vec<u8>, from: usize, to: usize) -> (r: Option<u64>)
    requires
        from <= to <= s@.len(),
    ensures
        match r {
            Some(v) => all_digits(s@.subrange(from as int, to as int)) && to > from && v
                == digits_val(s@.subrange(from as int, to as int)) && v <= 0x8000_0000,
            None => !(all_digits(s@.subrange(from as int, to as int)) && to > from && digits_val(
                s@.subrange(from as int, to as int),
            ) <= 0x8000_0000),
        },
{
    if from == to {
        return None;
    }
    let ghost t = s@.subrange(from as int, to as int);
    let mut acc: u64 = 0;
    let mut i: usize = from;
    while i < to
        invariant
            from <= i <= to <= s@.len(),
            t == s@.subrange(from as int, to as int),
            all_digits(t.take(i - from)),
            acc == digits_val(t.take(i - from)),
            acc <= 0x8000_0000,
        decreases to - i,
    {
        let b = s[i];
        if b < 48 || b > 57 {
            proof {
                assert(t[i - from] == b);
            }
            return None;
        }
        proof {
            assert(t.take(i - from + 1).drop_last() =~= t.take(i - from));
            assert(t.take(i - from + 1).last() == t[i - from] == b);
        }
        let next = acc * 10 + ((b - 48) as u64);
        if next > 0x8000_0000 {
            proof {
                assert(digits_val(t.take(i - from + 1)) == next);
                if all_digits(t) {
                    lemma_digits_val_monotone(t, i - from + 1);
                }
            }
            return None;
        }
        acc = next;
        i = i + 1;
    }
    proof {
        assert(t.take(to - from) =~= t);
    }
    Some(acc)
}


/// The position of the last `b` strictly before `upto`, scanning the buffer
/// backward.
fn rfind_byte_exec(s: &Vec<u8>, b: u8, upto: usize) -> (r: Option<usize>)
    requires
        upto <= s@.len(),
    ensures
        match r {
            Some(d) => rfind_byte(s@, b, upto as int) == Some(d as int) && d < upto,
            None => rfind_byte(s@, b, upto as int) is None,
        },
{
    let mut j = upto;
    while j > 0
        invariant
            j <= upto <= s@.len(),
            rfind_byte(s@, b, upto as int) == rfind_byte(s@, b, j as int),
        decreases j,
    {
        if s[j - 1] == b {
            return Some(j - 1);
        }
        j = j - 1;
    }
    None
}

/// Parse the decimal literal in `s[from .. to]`, accepted only within the
/// range of 32-bit signed coordinates.
fn parse_int_lit(s: &Vec<u8>, from: usize, to: usize) -> (r: Option<i64>)
    requires
        from <= to <= s@.len(),
    ensures
        ({
            let t = s@.subrange(from as int, to as int);
            match r {
                Some(v) => int_lit_val(t) == Some(v as int) && -0x8000_0000 <= v <= 0x7fff_ffff,
                None => match int_lit_val(t) {
                    Some(w) => !(-0x8000_0000 <= w <= 0x7fff_ffff),
                    None => true,
                },
            }
        }),
{
    let ghost t = s@.subrange(from as int, to as int);
    if from < to && s[from] == 45 {
        proof {
            assert(t[0] == 45);
            assert(t.skip(1) =~= s@.subrange(from + 1, to as int));
        }
        match parse_digits(s, from + 1, to) {
            Some(m) => Some(-(m as i64)),
            None => None,
        }
    } else {
        proof {
            if t.len() >= 2 {
                assert(t[0] == s@[from as int]);
            }
        }
        match parse_digits(s, from, to) {
            Some(m) => {
                if m > 0x7fff_ffff {
                    None
                } else {
                    Some(m as i64)
                }
            },
            None => None,
        }
    }
}

/// Parse container coordinates from a filename ending in the pattern
/// `r.<x>.<z>.mca`; the coordinates must be decimal literals in 32-bit
/// signed range.
pub fn get_coords_from_path(path_str: &str) -> (r: Option<Pair<i64>>)
    ensures
        match r {
            Some(p) => region_name_coords(path_str.spec_bytes()) == Some(
                (p.x as int, p.z as int),
            ) && -0x8000_0000 <= p.x <= 0x7fff_ffff && -0x8000_0000 <= p.z <= 0x7fff_ffff,
            None => region_name_coords(path_str.spec_bytes()) is None,
        },
{
    let bytes = vstd::slice::slice_to_vec(path_str.as_bytes());
    get_coords_from_bytes(&bytes)
}

/// Parse container coordinates from filename bytes; see
/// `get_coords_from_path`.
pub fn get_coords_from_bytes(name: &Vec<u8>) -> (r: Option<Pair<i64>>)
    ensures
        match r {
            Some(p) => region_name_coords(name@) == Some((p.x as int, p.z as int)) && -0x8000_0000
                <= p.x <= 0x7fff_ffff && -0x8000_0000 <= p.z <= 0x7fff_ffff,
            None => region_name_coords(name@) is None,
        },
{
    let bytes = name;
    let n = bytes.len();
    if n < 4 || bytes[n - 4] != 46 || bytes[n - 3] != 109 || bytes[n - 2] != 99 || bytes[n - 1]
        != 97 {
        return None;
    }
    let d2 = match rfind_byte_exec(bytes, 46, n - 4) {
        Some(d) => d,
        None => {
            return None;
        },
    };
    let d1 = match rfind_byte_exec(bytes, 46, d2) {
        Some(d) => d,
        None => {
            return None;
        },
    };
    if d1 < 1 || bytes[d1 - 1] != 114 {
        return None;
    }
    let x = match parse_int_lit(bytes, d1 + 1, d2) {
        Some(v) => v,
        None => {
            return None;
        },
    };
    let z = match parse_int_lit(bytes, d2 + 1, n - 4) {
        Some(v) => v,
        None => {
            return None;
        },
    };
    Some(Pair { x, z })
}

/// The canonical decimal digits of a non-negative number.
pub open spec fn dec_digits(n: int) -> Seq<u8>
    decreases n,
{
    if n < 10 {
        seq![(48 + n) as u8]
    } else {
        dec_digits(n / 10) + seq![(48 + n % 10) as u8]
    }
}

/// The canonical decimal literal of an integer.
pub open spec fn int_lit_of(v: int) -> Seq<u8> {
    if v < 0 {
        seq![45u8] + dec_digits(-v)
    } else {
        dec_digits(v)
    }
}

/// The filename of the container at coordinates (x, z): `r.<x>.<z>.mca`.
pub open spec fn region_file_name(x: int, z: int) -> Seq<u8> {
    seq![114u8, 46u8] + int_lit_of(x) + seq![46u8] + int_lit_of(z) + seq![46u8, 109u8, 99u8, 97u8]
}

/// Append the canonical decimal digits of `n`.
fn push_digits(v: &mut Vec<u8>, n: u64)
    ensures
        final(v)@ == old(v)@ + dec_digits(n as int),
    decreases n,
{
    if n < 10 {
        v.push(48 + (n as u8));
        proof {
            assert(v@ =~= old(v)@ + dec_digits(n as int));
        }
    } else {
        push_digits(v, n / 10);
        v.push(48 + ((n % 10) as u8));
        proof {
            assert(v@ =~= old(v)@ + dec_digits(n as int));
        }
    }
}

/// Append the canonical decimal literal of `x`.
fn push_int(v: &mut Vec<u8>, x: i64)
    ensures
        final(v)@ == old(v)@ + int_lit_of(x as int),
{
    if x < 0 {
        v.push(45);
        let m: u64 = (-(x as i128)) as u64;
        push_digits(v, m);
        proof {
            assert(v@ =~= old(v)@ + int_lit_of(x as int));
        }
    } else {
        push_digits(v, x as u64);
    }
}

/// The filename of the container at the given coordinates, as bytes:
/// `r.<x>.<z>.mca`.
pub fn get_path_from_coords(r: &Pair<i64>) -> (name: Vec<u8>)
    ensures
        name@ == region_file_name(r.x as int, r.z as int),
{
    let mut v: Vec<u8> = Vec::new();
    v.push(114);
    v.push(46);
    push_int(&mut v, r.x);
    v.push(46);
    push_int(&mut v, r.z);
    v.push(46);
    v.push(109);
    v.push(99);
    v.push(97);
    proof {
        assert(v@ =~= region_file_name(r.x as int, r.z as int));
    }
    v
}


/// Every byte of a canonical digit string is a decimal digit.
proof fn lemma_dec_digits_are_digits(n: int)
    requires
        n >= 0,
    ensures
        all_digits(dec_digits(n)),
        dec_digits(n).len() >= 1,
    decreases n,
{
    if n >= 10 {
        lemma_dec_digits_are_digits(n / 10);
        let d = dec_digits(n);
        assert forall|i: int| 0 <= i < d.len() implies 48 <= #[trigger] d[i] <= 57 by {
            if i < dec_digits(n / 10).len() {
                assert(d[i] == dec_digits(n / 10)[i]);
            } else {
                assert(d[i] == (48 + n % 10) as u8);
                vstd::arithmetic::div_mod::lemma_mod_bound(n, 10);
            }
        }
    } else {
        assert(dec_digits(n) =~= seq![(48 + n) as u8]);
    }
}

/// A canonical digit string reads back to its number.
proof fn lemma_digits_val_dec(n: int)
    requires
        n >= 0,
    ensures
        digits_val(dec_digits(n)) == n,
    decreases n,
{
    if n < 10 {
        assert(dec_digits(n) =~= seq![(48 + n) as u8]);
        assert(dec_digits(n).drop_last() =~= Seq::<u8>::empty());
        assert(digits_val(Seq::<u8>::empty()) == 0);
    } else {
        lemma_digits_val_dec(n / 10);
        let d = dec_digits(n);
        assert(d.drop_last() =~= dec_digits(n / 10));
        assert(d.last() == (48 + n % 10) as u8);
        vstd::arithmetic::div_mod::lemma_mod_bound(n, 10);
        vstd::arithmetic::div_mod::lemma_fundamental_div_mod(n, 10);
    }
}

/// A canonical decimal literal reads back to its integer.
proof fn lemma_int_lit_roundtrip(v: int)
    ensures
        int_lit_val(int_lit_of(v)) == Some(v),
        int_lit_of(v).len() >= 1,
        forall|i: int|
            0 <= i < int_lit_of(v).len() ==> (#[trigger] int_lit_of(v)[i] == 45 || 48 <= int_lit_of(
                v,
            )[i] <= 57),
{
    if v < 0 {
        lemma_dec_digits_are_digits(-v);
        lemma_digits_val_dec(-v);
        let t = int_lit_of(v);
        assert(t.skip(1) =~= dec_digits(-v));
        assert forall|i: int| 0 <= i < t.len() implies (t[i] == 45 || 48 <= t[i] <= 57) by {
            if i >= 1 {
                assert(t[i] == dec_digits(-v)[i - 1]);
            }
        }
    } else {
        lemma_dec_digits_are_digits(v);
        lemma_digits_val_dec(v);
        let t = int_lit_of(v);
        assert(!(t.len() >= 2 && t[0] == 45 && all_digits(t.skip(1))));
    }
}

/// When `b` last occurs at `d` before `upto`, the backward scan finds it
/// there.
proof fn lemma_rfind_byte_at(s: Seq<u8>, b: u8, upto: int, d: int)
    requires
        0 <= d < upto <= s.len(),
        s[d] == b,
        forall|k: int| d < k < upto ==> s[k] != b,
    ensures
        rfind_byte(s, b, upto) == Some(d),
    decreases upto,
{
    if d < upto - 1 {
        lemma_rfind_byte_at(s, b, upto - 1, d);
    }
}

/// The filename builder and the filename parser are inverses: the name
/// built for any coordinates parses back to exactly those coordinates.
pub proof fn lemma_region_name_roundtrip(x: int, z: int)
    requires
        -0x8000_0000 <= x <= 0x7fff_ffff,
        -0x8000_0000 <= z <= 0x7fff_ffff,
    ensures
        region_name_coords(region_file_name(x, z)) == Some((x, z)),
{
    let s = region_file_name(x, z);
    let lx = int_lit_of(x);
    let lz = int_lit_of(z);
    lemma_int_lit_roundtrip(x);
    lemma_int_lit_roundtrip(z);
    let d2 = 2 + lx.len() as int;
    let d3 = d2 + 1 + lz.len() as int;
    let n = s.len() as int;
    assert(n == d3 + 4);
    assert(s[0] == 114 && s[1] == 46);
    assert(s[d2] == 46);
    assert(s[d3] == 46);
    assert(s[d3 + 1] == 109 && s[d3 + 2] == 99 && s[d3 + 3] == 97);
    assert forall|k: int| 2 <= k < d2 implies s[k] != 46 by {
        assert(s[k] == lx[k - 2]);
    }
    assert forall|k: int| d2 + 1 <= k < d3 implies s[k] != 46 by {
        assert(s[k] == lz[k - (d2 + 1)]);
    }
    lemma_rfind_byte_at(s, 46, n - 4, d2);
    lemma_rfind_byte_at(s, 46, d2, 1);
    assert(s.subrange(2, d2) =~= lx);
    assert(s.subrange(d2 + 1, d3) =~= lz);
}

/// The fields the blocks-only pass materializes.
pub open spec fn bsection_names() -> Seq<Seq<u8>> {
    seq![axis_y_name(), palette_name(), block_states_name()]
}

/// The fields the lights-only pass materializes.
pub open spec fn lsection_names() -> Seq<Seq<u8>> {
    seq![axis_y_name(), block_light_name(), sky_light_name()]
}

/// One section's effect on the block array alone: a section without block
/// states contributes nothing (and needs no other field); one above the top
/// of the unit is ignored.
pub open spec fn apply_section_blocks(
    entries: Seq<(Seq<u8>, TagV)>,
    table: Seq<Seq<u8>>,
    blocks: Seq<u16>,
) -> Option<Seq<u16>> {
    match lookup(entries, block_states_name()) {
        None => Some(blocks),
        Some(sv) => match sv {
            TagV::LongArray(words) => match lookup(entries, axis_y_name()) {
                Some(yv) => match yv {
                    TagV::Byte(y) => if y > 15 {
                        Some(blocks)
                    } else {
                        let so = (y as int) * 4096;
                        match lookup(entries, palette_name()) {
                            Some(pv) => match pv {
                                TagV::List(ec, pal) => match resolve_palette_spec(pal, table) {
                                    Some(rp) => if derived_width(words) <= 16 && (forall|i: int|
                                        #![auto]
                                        0 <= i < 4096 ==> packed_index(words, derived_width(words), i)
                                            < rp.len()) {
                                        Some(
                                            Seq::new(
                                                65536,
                                                |j: int|
                                                    if so <= j < so + 4096 {
                                                        rp[packed_index(
                                                            words,
                                                            derived_width(words),
                                                            j - so,
                                                        ) as int]
                                                    } else {
                                                        blocks[j]
                                                    },
                                            ),
                                        )
                                    } else {
                                        None
                                    },
                                    None => None,
                                },
                                _ => None,
                            },
                            None => None,
                        }
                    },
                    _ => None,
                },
                None => None,
            },
            _ => None,
        },
    }
}

/// One section's effect on the light array and the per-section presence
/// flags: a section without light data of either channel contributes
/// nothing, as does one above the top of the unit.
pub open spec fn apply_section_lights(
    entries: Seq<(Seq<u8>, TagV)>,
    lights: Seq<u8>,
    present: Seq<bool>,
) -> Option<(Seq<u8>, Seq<bool>)> {
    match lookup(entries, axis_y_name()) {
        Some(yv) => match yv {
            TagV::Byte(y) => {
                let bl = lookup(entries, block_light_name());
                let sl = lookup(entries, sky_light_name());
                if y > 15 || (bl is None && sl is None) {
                    Some((lights, present))
                } else {
                    let so = (y as int) * 4096;
                    match (crate::region2::nibbles(bl), crate::region2::nibbles(sl)) {
                        (Some(bb), Some(sb)) => Some(
                            (
                                Seq::new(
                                    65536,
                                    |j: int|
                                        if so <= j < so + 4096 {
                                            combined_light(bb, sb, j - so)
                                        } else {
                                            lights[j]
                                        },
                                ),
                                present.update(y as int, true),
                            ),
                        ),
                        _ => None,
                    }
                }
            },
            _ => None,
        },
        None => None,
    }
}

/// The block array after `count` section elements of the blocks-only pass.
pub open spec fn bsections_spec(
    data: Seq<u8>,
    pos: int,
    count: int,
    table: Seq<Seq<u8>>,
    blocks: Seq<u16>,
) -> Option<(Seq<u16>, int)>
    decreases count,
{
    if count <= 0 {
        Some((blocks, pos))
    } else {
        match materialize_spec(data, pos, bsection_names()) {
            None => None,
            Some((entries, p2)) => match apply_section_blocks(entries, table, blocks) {
                None => None,
                Some(b2) => bsections_spec(data, p2, count - 1, table, b2),
            },
        }
    }
}

/// The light state after `count` section elements of the lights-only pass.
pub open spec fn lsections_spec(
    data: Seq<u8>,
    pos: int,
    count: int,
    lights: Seq<u8>,
    present: Seq<bool>,
) -> Option<((Seq<u8>, Seq<bool>), int)>
    decreases count,
{
    if count <= 0 {
        Some(((lights, present), pos))
    } else {
        match materialize_spec(data, pos, lsection_names()) {
            None => None,
            Some((entries, p2)) => match apply_section_lights(entries, lights, present) {
                None => None,
                Some(st2) => lsections_spec(data, p2, count - 1, st2.0, st2.1),
            },
        }
    }
}

/// What the blocks-only pass yields for a unit's root payload: `Some(None)`
/// when the Level compound or its Sections list is absent (the unit is
/// skipped), the block array otherwise.
pub open spec fn blocks_outcome(data: Seq<u8>, pos: int, table: Seq<Seq<u8>>) -> Option<
    Option<Seq<u16>>,
> {
    match seek_spec(data, pos, seq![level_name()]) {
        None => None,
        Some(s1) => match s1 {
            Seek::Absent { .. } => Some(None),
            Seek::Found { code: c1, at: a1, .. } => if c1 != 10 {
                None
            } else {
                match seek_spec(data, a1, seq![sections_name()]) {
                    None => None,
                    Some(s2) => match s2 {
                        Seek::Absent { .. } => Some(None),
                        Seek::Found { code: c2, at: a2, .. } => if c2 != 9 {
                            None
                        } else if a2 + 5 <= data.len() {
                            match bsections_spec(
                                data,
                                a2 + 5,
                                be32(data, a2 + 1),
                                table,
                                zero_blocks(),
                            ) {
                                None => None,
                                Some(bp) => Some(Some(bp.0)),
                            }
                        } else {
                            None
                        },
                    },
                }
            },
        },
    }
}

/// What the lights-only pass yields for a unit's root payload, including
/// the top-to-bottom copy-down for sections without light data.
pub open spec fn lights_outcome(data: Seq<u8>, pos: int) -> Option<Option<Seq<u8>>> {
    match seek_spec(data, pos, seq![level_name()]) {
        None => None,
        Some(s1) => match s1 {
            Seek::Absent { .. } => Some(None),
            Seek::Found { code: c1, at: a1, .. } => if c1 != 10 {
                None
            } else {
                match seek_spec(data, a1, seq![sections_name()]) {
                None => None,
                Some(s2) => match s2 {
                    Seek::Absent { .. } => Some(None),
                    Seek::Found { code: c2, at: a2, .. } => if c2 != 9 {
                        None
                    } else if a2 + 5 <= data.len() {
                        match lsections_spec(
                            data,
                            a2 + 5,
                            be32(data, a2 + 1),
                            Seq::new(65536, |i: int| 0x0fu8),
                            Seq::new(16, |i: int| false),
                        ) {
                            None => None,
                            Some(lp) => Some(
                                Some(Seq::new(65536, |j: int| gap_filled(lp.0.0, lp.0.1, j))),
                            ),
                        }
                    } else {
                        None
                    },
                },
                }
            },
        },
    }
}

/// What the biomes-only pass yields for a unit's root payload: `Some(None)`
/// when the Level compound or the Biomes array is absent; all-zero biomes
/// for an array of any length other than 256.
pub open spec fn biomes_outcome(data: Seq<u8>, pos: int) -> Option<Option<Seq<u8>>> {
    match seek_spec(data, pos, seq![level_name()]) {
        None => None,
        Some(s1) => match s1 {
            Seek::Absent { .. } => Some(None),
            Seek::Found { code: c1, at: a1, .. } => if c1 != 10 {
                None
            } else {
                match seek_spec(data, a1, seq![biomes_name()]) {
                None => None,
                Some(s2) => match s2 {
                    Seek::Absent { .. } => Some(None),
                    Seek::Found { code: c2, at: a2, .. } => if c2 != 7 {
                        None
                    } else {
                        match parse_payload(data, a2, 7u8) {
                        Some(pv) => match pv.0 {
                            TagV::ByteArray(arr) => Some(
                                Some(
                                    if arr.len() == 256 {
                                        arr
                                    } else {
                                        zero_bytes(256)
                                    },
                                ),
                            ),
                            _ => None,
                        },
                        None => None,
                        }
                    },
                },
                }
            },
        },
    }
}

/// Apply one materialized section of the blocks-only pass.
fn decode_section_blocks(
    entries: &Vec<(Vec<u8>, Tag)>,
    blocknames: &Vec<Vec<u8>>,
    blocks: &mut Vec<u16>,
) -> (r: Result<(), DecodeError>)
    requires
        blocknames@.len() <= 0x1_0000,
        old(blocks)@.len() == 65536,
    ensures
        final(blocks)@.len() == 65536,
        match r {
            Ok(()) => apply_section_blocks(
                entries_v(entries@),
                names_v(blocknames@),
                old(blocks)@,
            ) == Some(final(blocks)@),
            Err(_) => apply_section_blocks(
                entries_v(entries@),
                names_v(blocknames@),
                old(blocks)@,
            ) is None,
        },
{
    let ghost entv = entries_v(entries@);
    let ghost table = names_v(blocknames@);
    let st_tag = match compound_get(entries, &name_block_states()) {
        Some(t) => t,
        None => {
            return Ok(());
        },
    };
    let words = match st_tag.to_long_array() {
        Ok(w) => w,
        Err(e) => {
            proof {
                crate::region2::lemma_tag_v_shape(*st_tag);
            }
            return Err(e);
        },
    };
    let y = match compound_get(entries, &name_axis_y()) {
        Some(t) => match t.to_u8() {
            Ok(b) => b,
            Err(e) => {
                proof {
                    crate::region2::lemma_tag_v_shape(*t);
                }
                return Err(e);
            },
        },
        None => {
            return Err(DecodeError::WrongTagType);
        },
    };
    if y > 15 {
        return Ok(());
    }
    let so = (y as usize) * 4096;
    let pal_tag = match compound_get(entries, &name_palette()) {
        Some(p) => p,
        None => {
            return Err(DecodeError::WrongTagType);
        },
    };
    let pal = match pal_tag.to_list() {
        Ok(p) => p,
        Err(e) => {
            proof {
                crate::region2::lemma_tag_v_shape(*pal_tag);
            }
            return Err(e);
        },
    };
    let rp = match resolve_palette(pal, blocknames) {
        Ok(rp) => rp,
        Err(e) => {
            return Err(e);
        },
    };
    match unpack_section_blocks(words, &rp, blocks, so) {
        Ok(()) => {},
        Err(e) => {
            return Err(e);
        },
    }
    proof {
        let b2 = apply_section_blocks(entv, table, old(blocks)@);
        assert(b2 matches Some(b) && b =~= blocks@);
    }
    Ok(())
}

/// Apply one materialized section of the lights-only pass.
fn decode_section_lights(
    entries: &Vec<(Vec<u8>, Tag)>,
    lights: &mut Vec<u8>,
    present: &mut Vec<bool>,
) -> (r: Result<(), DecodeError>)
    requires
        old(lights)@.len() == 65536,
        old(present)@.len() == 16,
    ensures
        final(lights)@.len() == 65536,
        final(present)@.len() == 16,
        match r {
            Ok(()) => apply_section_lights(entries_v(entries@), old(lights)@, old(present)@)
                == Some((final(lights)@, final(present)@)),
            Err(_) => apply_section_lights(entries_v(entries@), old(lights)@, old(present)@)
                is None,
        },
{
    let ghost entv = entries_v(entries@);
    let y = match compound_get(entries, &name_axis_y()) {
        Some(t) => match t.to_u8() {
            Ok(b) => b,
            Err(e) => {
                proof {
                    crate::region2::lemma_tag_v_shape(*t);
                }
                return Err(e);
            },
        },
        None => {
            return Err(DecodeError::WrongTagType);
        },
    };
    let bl_tag = compound_get(entries, &name_block_light());
    let sl_tag = compound_get(entries, &name_sky_light());
    if y > 15 || (!bl_tag.is_some() && !sl_tag.is_some()) {
        return Ok(());
    }
    let so = (y as usize) * 4096;
    let zeros: Vec<u8> = vec![0u8; 2048];
    proof {
        assert(zeros@ =~= zero_bytes(2048));
    }
    let bb: &Vec<u8> = match &bl_tag {
        Some(t) => match t.to_u8_array() {
            Ok(b) => b,
            Err(e) => {
                proof {
                    crate::region2::lemma_tag_v_shape(**t);
                }
                return Err(e);
            },
        },
        None => &zeros,
    };
    if bb.len() != 2048 {
        return Err(DecodeError::BadLightArray);
    }
    let sb: &Vec<u8> = match &sl_tag {
        Some(t) => match t.to_u8_array() {
            Ok(b) => b,
            Err(e) => {
                proof {
                    crate::region2::lemma_tag_v_shape(**t);
                }
                return Err(e);
            },
        },
        None => &zeros,
    };
    if sb.len() != 2048 {
        return Err(DecodeError::BadLightArray);
    }
    let ghost bbv = bb@;
    let ghost sbv = sb@;
    combine_section_lights(bb, sb, lights, so);
    present.set(y as usize, true);
    proof {
        assert(crate::region2::nibbles(lookup(entv, block_light_name())) == Some(bbv));
        assert(crate::region2::nibbles(lookup(entv, sky_light_name())) == Some(sbv));
        let fin = apply_section_lights(entv, old(lights)@, old(present)@);
        assert(fin matches Some(f) && f.0 =~= lights@ && f.1 =~= present@);
    }
    Ok(())
}


/// Decode the block array of one unit from a reader at its root payload.
/// `Ok(None)` when the Level compound or the Sections list is absent.
pub fn read_chunk_blocks(reader: &mut TagReader, blocknames: &Vec<Vec<u8>>) -> (r: Result<
    Option<Vec<u16>>,
    DecodeError,
>)
    requires
        old(reader).wf(),
        blocknames@.len() <= 0x1_0000,
    ensures
        final(reader).wf(),
        ({
            let outcome = blocks_outcome(
                old(reader).data@,
                old(reader).pos as int,
                names_v(blocknames@),
            );
            match r {
                Ok(b_opt) => match b_opt {
                    None => outcome == Some(None::<Seq<u16>>),
                    Some(b) => b@.len() == 65536 && outcome == Some(Some(b@)),
                },
                Err(_) => outcome is None,
            }
        }),
{
    let ghost data0 = reader.data@;
    let ghost pos0 = reader.pos as int;
    let ghost table = names_v(blocknames@);
    match reader.seek_compound_tag_name(&name_level()) {
        Err(e) => {
            return Err(e);
        },
        Ok(None) => {
            return Ok(None);
        },
        Ok(Some(c)) => {
            if c != 10 {
                return Err(DecodeError::WrongTagType);
            }
        },
    }
    match reader.seek_compound_tag_name(&name_sections()) {
        Err(e) => {
            return Err(e);
        },
        Ok(None) => {
            return Ok(None);
        },
        Ok(Some(c)) => {
            if c != 9 {
                return Err(DecodeError::WrongTagType);
            }
        },
    }
    let ghost a2 = reader.pos as int;
    let slen = match reader.read_list_length() {
        Err(e) => {
            return Err(e);
        },
        Ok(n) => n,
    };
    let mut blocks: Vec<u16> = vec![0u16; 65536];
    proof {
        assert(blocks@ =~= zero_blocks());
    }
    let ghost sec_target = bsections_spec(data0, reader.pos as int, slen as int, table, blocks@);
    let mut names3: Vec<Vec<u8>> = Vec::new();
    names3.push(name_axis_y());
    names3.push(name_palette());
    names3.push(name_block_states());
    proof {
        assert(names_v(names3@) =~= bsection_names());
    }
    let mut s: u32 = 0;
    while s < slen
        invariant
            s <= slen,
            reader.wf(),
            reader.data@ == data0,
            blocknames@.len() <= 0x1_0000,
            table == names_v(blocknames@),
            names_v(names3@) == bsection_names(),
            blocks@.len() == 65536,
            bsections_spec(data0, reader.pos as int, (slen - s) as int, table, blocks@)
                == sec_target,
            blocks_outcome(data0, pos0, table) == (match sec_target {
                None => None::<Option<Seq<u16>>>,
                Some(bp) => Some(Some(bp.0)),
            }),
            data0 == old(reader).data@,
            pos0 == old(reader).pos as int,
        decreases slen - s,
    {
        let entries = match reader.read_compound_tag_names(&names3) {
            Err(e) => {
                return Err(e);
            },
            Ok(en) => en,
        };
        match decode_section_blocks(&entries, blocknames, &mut blocks) {
            Ok(()) => {},
            Err(e) => {
                return Err(e);
            },
        }
        s = s + 1;
    }
    Ok(Some(blocks))
}

/// Decode the combined light array of one unit from a reader at its root
/// payload, including the copy-down pass. `Ok(None)` when the Level
/// compound or the Sections list is absent.
pub fn read_chunk_lights(reader: &mut TagReader) -> (r: Result<Option<Vec<u8>>, DecodeError>)
    requires
        old(reader).wf(),
    ensures
        final(reader).wf(),
        ({
            let outcome = lights_outcome(old(reader).data@, old(reader).pos as int);
            match r {
                Ok(l_opt) => match l_opt {
                    None => outcome == Some(None::<Seq<u8>>),
                    Some(l) => l@.len() == 65536 && outcome == Some(Some(l@)),
                },
                Err(_) => outcome is None,
            }
        }),
{
    let ghost data0 = reader.data@;
    let ghost pos0 = reader.pos as int;
    match reader.seek_compound_tag_name(&name_level()) {
        Err(e) => {
            return Err(e);
        },
        Ok(None) => {
            return Ok(None);
        },
        Ok(Some(c)) => {
            if c != 10 {
                return Err(DecodeError::WrongTagType);
            }
        },
    }
    match reader.seek_compound_tag_name(&name_sections()) {
        Err(e) => {
            return Err(e);
        },
        Ok(None) => {
            return Ok(None);
        },
        Ok(Some(c)) => {
            if c != 9 {
                return Err(DecodeError::WrongTagType);
            }
        },
    }
    let slen = match reader.read_list_length() {
        Err(e) => {
            return Err(e);
        },
        Ok(n) => n,
    };
    let mut lights: Vec<u8> = vec![0x0fu8; 65536];
    let mut present: Vec<bool> = vec![false; 16];
    proof {
        assert(lights@ =~= Seq::new(65536, |i: int| 0x0fu8));
        assert(present@ =~= Seq::new(16, |i: int| false));
    }
    let ghost sec_target = lsections_spec(
        data0,
        reader.pos as int,
        slen as int,
        lights@,
        present@,
    );
    let mut names3: Vec<Vec<u8>> = Vec::new();
    names3.push(name_axis_y());
    names3.push(name_block_light());
    names3.push(name_sky_light());
    proof {
        assert(names_v(names3@) =~= lsection_names());
    }
    let mut s: u32 = 0;
    while s < slen
        invariant
            s <= slen,
            reader.wf(),
            reader.data@ == data0,
            names_v(names3@) == lsection_names(),
            lights@.len() == 65536,
            present@.len() == 16,
            lsections_spec(data0, reader.pos as int, (slen - s) as int, lights@, present@)
                == sec_target,
            lights_outcome(data0, pos0) == (match sec_target {
                None => None::<Option<Seq<u8>>>,
                Some(lp) => Some(Some(Seq::new(65536, |j: int| gap_filled(lp.0.0, lp.0.1, j)))),
            }),
            data0 == old(reader).data@,
            pos0 == old(reader).pos as int,
        decreases slen - s,
    {
        let entries = match reader.read_compound_tag_names(&names3) {
            Err(e) => {
                return Err(e);
            },
            Ok(en) => en,
        };
        match decode_section_lights(&entries, &mut lights, &mut present) {
            Ok(()) => {},
            Err(e) => {
                return Err(e);
            },
        }
        s = s + 1;
    }
    let ghost lfin = lights@;
    let ghost pfin = present@;
    fill_light_gaps(&mut lights, &present);
    proof {
        assert(lights@ =~= Seq::new(65536, |j: int| gap_filled(lfin, pfin, j)));
    }
    Ok(Some(lights))
}

/// Decode the biome array of one unit from a reader at its root payload.
/// `Ok(None)` when the Level compound or the Biomes array is absent; a
/// wrong-length array gives all-zero biomes.
pub fn read_chunk_biomes(reader: &mut TagReader) -> (r: Result<Option<Vec<u8>>, DecodeError>)
    requires
        old(reader).wf(),
    ensures
        final(reader).wf(),
        ({
            let outcome = biomes_outcome(old(reader).data@, old(reader).pos as int);
            match r {
                Ok(b_opt) => match b_opt {
                    None => outcome == Some(None::<Seq<u8>>),
                    Some(b) => b@.len() == 256 && outcome == Some(Some(b@)),
                },
                Err(_) => outcome is None,
            }
        }),
{
    match reader.seek_compound_tag_name(&name_level()) {
        Err(e) => {
            return Err(e);
        },
        Ok(None) => {
            return Ok(None);
        },
        Ok(Some(c)) => {
            if c != 10 {
                return Err(DecodeError::WrongTagType);
            }
        },
    }
    match reader.seek_compound_tag_name(&name_biomes()) {
        Err(e) => {
            return Err(e);
        },
        Ok(None) => {
            return Ok(None);
        },
        Ok(Some(c)) => {
            if c != 7 {
                return Err(DecodeError::WrongTagType);
            }
        },
    }
    let arr = match reader.read_u8_array() {
        Err(e) => {
            return Err(e);
        },
        Ok(a) => a,
    };
    if arr.len() == 256 {
        Ok(Some(arr))
    } else {
        let zeros: Vec<u8> = vec![0u8; 256];
        proof {
            assert(zeros@ =~= zero_bytes(256));
        }
        Ok(Some(zeros))
    }
}


/// True when slot (x, z) lies within the margins (see `region2`).
pub use crate::region2::in_margins;

/// What the blocks-only pass of a decoded root payload yields for a slot.
pub open spec fn root_blocks(payload: Seq<u8>, table: Seq<Seq<u8>>) -> Option<Seq<u16>> {
    match crate::nbt::parse_header(payload, 0) {
        None => None,
        Some((c, nm, p)) => match blocks_outcome(payload, p, table) {
            None => None,
            Some(o) => o,
        },
    }
}

/// What the lights-only pass of a decoded root payload yields for a slot.
pub open spec fn root_lights(payload: Seq<u8>) -> Option<Seq<u8>> {
    match crate::nbt::parse_header(payload, 0) {
        None => None,
        Some((c, nm, p)) => match lights_outcome(payload, p) {
            None => None,
            Some(o) => o,
        },
    }
}

/// What the biomes-only pass of a decoded root payload yields for a slot.
pub open spec fn root_biomes(payload: Seq<u8>) -> Option<Seq<u8>> {
    match crate::nbt::parse_header(payload, 0) {
        None => None,
        Some((c, nm, p)) => match biomes_outcome(payload, p) {
            None => None,
            Some(o) => o,
        },
    }
}

/// What one slot of a per-aspect grid must hold, with the aspect's decoded
/// value abstracted as a sequence.
pub open spec fn aspect_slot_ok<T>(
    file: Seq<u8>,
    x: int,
    z: int,
    m: Edges<usize>,
    decoded: Option<Seq<T>>,
    slot_view: Option<Seq<T>>,
) -> bool {
    if !in_margins(m, x, z) {
        slot_view is None
    } else if 4 * (z * 32 + x) + 4 <= file.len() {
        let off = slot_offset(file, x, z);
        if off == 0 {
            slot_view is None
        } else if slot_header_ok(file, off) && slot_scheme(file, off) == 2 {
            decoded == slot_view
        } else {
            false
        }
    } else {
        false
    }
}

/// Decode the block arrays of every slot within the margins.
pub fn read_region_chunk_blocks(
    file: &Option<Vec<u8>>,
    margins: &Edges<usize>,
    blocknames: &Vec<Vec<u8>>,
) -> (r: Result<Vec<Option<Vec<u16>>>, DecodeError>)
    requires
        margins.e <= 32,
        margins.s <= 32,
        blocknames@.len() <= 0x1_0000,
    ensures
        match r {
            Ok(grid) => !has_bad_slot(*file, *margins) && grid@.len() == 1024 && match *file {
                None => forall|i: int| 0 <= i < 1024 ==> #[trigger] grid@[i] is None,
                Some(bytes) => forall|i: int|
                    0 <= i < 1024 ==> aspect_slot_ok(
                        bytes@,
                        i % 32,
                        i / 32,
                        *margins,
                        root_blocks(
                            inflate_of(
                                slot_payload(bytes@, slot_offset(bytes@, i % 32, i / 32)),
                            ),
                            names_v(blocknames@),
                        ),
                        match #[trigger] grid@[i] {
                            Some(v) => Some(v@),
                            None => None,
                        },
                    ),
            },
            Err(_) => has_bad_slot(*file, *margins),
        },
{
    let mut grid: Vec<Option<Vec<u16>>> = Vec::new();
    match file {
        None => {
            let mut i: usize = 0;
            while i < 1024
                invariant
                    i <= 1024,
                    grid@.len() == i,
                    forall|k: int| 0 <= k < i ==> #[trigger] grid@[k] is None,
                decreases 1024 - i,
            {
                grid.push(None);
                i = i + 1;
            }
            Ok(grid)
        },
        Some(bytes) => {
            let mut k: usize = 0;
            while k < 1024
                invariant
                    k <= 1024,
                    grid@.len() == k,
                    file is Some,
                    *file matches Some(fb) && fb == *bytes,
                    margins.e <= 32,
                    margins.s <= 32,
                    blocknames@.len() <= 0x1_0000,
                    forall|i: int| 0 <= i < k ==> !#[trigger] slot_bad(bytes@, *margins, i),
                    forall|i: int|
                        0 <= i < k ==> aspect_slot_ok(
                            bytes@,
                            i % 32,
                            i / 32,
                            *margins,
                            root_blocks(
                                inflate_of(
                                    slot_payload(bytes@, slot_offset(bytes@, i % 32, i / 32)),
                                ),
                                names_v(blocknames@),
                            ),
                            match #[trigger] grid@[i] {
                                Some(v) => Some(v@),
                                None => None,
                            },
                        ),
                decreases 1024 - k,
            {
                let cz = k / 32;
                let cx = k % 32;
                proof {
                    vstd::arithmetic::div_mod::lemma_fundamental_div_mod(k as int, 32);
                    vstd::arithmetic::div_mod::lemma_mod_bound(k as int, 32);
                }
                let inside = cx >= margins.w && cx < 32 - margins.e && cz >= margins.n && cz < 32
                    - margins.s;
                let slot: Option<Vec<u16>> = if inside {
                    match crate::container::open_slot(bytes, cx, cz) {
                        Err(e) => {
                            proof {
                                assert(slot_bad(bytes@, *margins, k as int));
                            }
                            return Err(e);
                        },
                        Ok(None) => None,
                        Ok(Some(payload)) => {
                            let mut reader = TagReader::new(payload);
                            match reader.read_tag_header() {
                                Err(_) => None,
                                Ok(_) => {
                                    match read_chunk_blocks(&mut reader, blocknames) {
                                        Err(_) => None,
                                        Ok(None) => None,
                                        Ok(Some(b)) => Some(b),
                                    }
                                },
                            }
                        },
                    }
                } else {
                    None
                };
                grid.push(slot);
                k = k + 1;
            }
            Ok(grid)
        },
    }
}

/// Decode the light arrays of every slot within the margins.
pub fn read_region_chunk_lightmaps(file: &Option<Vec<u8>>, margins: &Edges<usize>) -> (r: Result<
    Vec<Option<Vec<u8>>>,
    DecodeError,
>)
    requires
        margins.e <= 32,
        margins.s <= 32,
    ensures
        match r {
            Ok(grid) => !has_bad_slot(*file, *margins) && grid@.len() == 1024 && match *file {
                None => forall|i: int| 0 <= i < 1024 ==> #[trigger] grid@[i] is None,
                Some(bytes) => forall|i: int|
                    0 <= i < 1024 ==> aspect_slot_ok(
                        bytes@,
                        i % 32,
                        i / 32,
                        *margins,
                        root_lights(
                            inflate_of(
                                slot_payload(bytes@, slot_offset(bytes@, i % 32, i / 32)),
                            ),
                        ),
                        match #[trigger] grid@[i] {
                            Some(v) => Some(v@),
                            None => None,
                        },
                    ),
            },
            Err(_) => has_bad_slot(*file, *margins),
        },
{
    let mut grid: Vec<Option<Vec<u8>>> = Vec::new();
    match file {
        None => {
            let mut i: usize = 0;
            while i < 1024
                invariant
                    i <= 1024,
                    grid@.len() == i,
                    forall|k: int| 0 <= k < i ==> #[trigger] grid@[k] is None,
                decreases 1024 - i,
            {
                grid.push(None);
                i = i + 1;
            }
            Ok(grid)
        },
        Some(bytes) => {
            let mut k: usize = 0;
            while k < 1024
                invariant
                    k <= 1024,
                    grid@.len() == k,
                    file is Some,
                    *file matches Some(fb) && fb == *bytes,
                    margins.e <= 32,
                    margins.s <= 32,
                    forall|i: int| 0 <= i < k ==> !#[trigger] slot_bad(bytes@, *margins, i),
                    forall|i: int|
                        0 <= i < k ==> aspect_slot_ok(
                            bytes@,
                            i % 32,
                            i / 32,
                            *margins,
                            root_lights(
                                inflate_of(
                                    slot_payload(bytes@, slot_offset(bytes@, i % 32, i / 32)),
                                ),
                            ),
                            match #[trigger] grid@[i] {
                                Some(v) => Some(v@),
                                None => None,
                            },
                        ),
                decreases 1024 - k,
            {
                let cz = k / 32;
                let cx = k % 32;
                proof {
                    vstd::arithmetic::div_mod::lemma_fundamental_div_mod(k as int, 32);
                    vstd::arithmetic::div_mod::lemma_mod_bound(k as int, 32);
                }
                let inside = cx >= margins.w && cx < 32 - margins.e && cz >= margins.n && cz < 32
                    - margins.s;
                let slot: Option<Vec<u8>> = if inside {
                    match crate::container::open_slot(bytes, cx, cz) {
                        Err(e) => {
                            proof {
                                assert(slot_bad(bytes@, *margins, k as int));
                            }
                            return Err(e);
                        },
                        Ok(None) => None,
                        Ok(Some(payload)) => {
                            let mut reader = TagReader::new(payload);
                            match reader.read_tag_header() {
                                Err(_) => None,
                                Ok(_) => {
                                    match read_chunk_lights(&mut reader) {
                                        Err(_) => None,
                                        Ok(None) => None,
                                        Ok(Some(l)) => Some(l),
                                    }
                                },
                            }
                        },
                    }
                } else {
                    None
                };
                grid.push(slot);
                k = k + 1;
            }
            Ok(grid)
        },
    }
}

/// Decode the biome arrays of every slot of the whole grid.
pub fn read_region_chunk_biomes(file: &Option<Vec<u8>>) -> (r: Result<
    Vec<Option<Vec<u8>>>,
    DecodeError,
>)
    ensures
        match r {
            Ok(grid) => !has_bad_slot(*file, Edges { n: 0usize, e: 0usize, s: 0usize, w: 0usize })
                && grid@.len() == 1024 && match *file {
                None => forall|i: int| 0 <= i < 1024 ==> #[trigger] grid@[i] is None,
                Some(bytes) => forall|i: int|
                    0 <= i < 1024 ==> aspect_slot_ok(
                        bytes@,
                        i % 32,
                        i / 32,
                        Edges { n: 0usize, e: 0usize, s: 0usize, w: 0usize },
                        root_biomes(
                            inflate_of(
                                slot_payload(bytes@, slot_offset(bytes@, i % 32, i / 32)),
                            ),
                        ),
                        match #[trigger] grid@[i] {
                            Some(v) => Some(v@),
                            None => None,
                        },
                    ),
            },
            Err(_) => has_bad_slot(*file, Edges { n: 0usize, e: 0usize, s: 0usize, w: 0usize }),
        },
{
    let mut grid: Vec<Option<Vec<u8>>> = Vec::new();
    match file {
        None => {
            let mut i: usize = 0;
            while i < 1024
                invariant
                    i <= 1024,
                    grid@.len() == i,
                    forall|k: int| 0 <= k < i ==> #[trigger] grid@[k] is None,
                decreases 1024 - i,
            {
                grid.push(None);
                i = i + 1;
            }
            Ok(grid)
        },
        Some(bytes) => {
            let mut k: usize = 0;
            while k < 1024
                invariant
                    k <= 1024,
                    grid@.len() == k,
                    file is Some,
                    *file matches Some(fb) && fb == *bytes,
                    forall|i: int|
                        0 <= i < k ==> !#[trigger] slot_bad(
                            bytes@,
                            Edges { n: 0usize, e: 0usize, s: 0usize, w: 0usize },
                            i,
                        ),
                    forall|i: int|
                        0 <= i < k ==> aspect_slot_ok(
                            bytes@,
                            i % 32,
                            i / 32,
                            Edges { n: 0usize, e: 0usize, s: 0usize, w: 0usize },
                            root_biomes(
                                inflate_of(
                                    slot_payload(bytes@, slot_offset(bytes@, i % 32, i / 32)),
                                ),
                            ),
                            match #[trigger] grid@[i] {
                                Some(v) => Some(v@),
                                None => None,
                            },
                        ),
                decreases 1024 - k,
            {
                let cz = k / 32;
                let cx = k % 32;
                proof {
                    vstd::arithmetic::div_mod::lemma_fundamental_div_mod(k as int, 32);
                    vstd::arithmetic::div_mod::lemma_mod_bound(k as int, 32);
                }
                let slot: Option<Vec<u8>> = match crate::container::open_slot(bytes, cx, cz) {
                    Err(e) => {
                        proof {
                            assert(slot_bad(
                                bytes@,
                                Edges { n: 0usize, e: 0usize, s: 0usize, w: 0usize },
                                k as int,
                            ));
                        }
                        return Err(e);
                    },
                    Ok(None) => None,
                    Ok(Some(payload)) => {
                        let mut reader = TagReader::new(payload);
                        match reader.read_tag_header() {
                            Err(_) => None,
                            Ok(_) => {
                                match read_chunk_biomes(&mut reader) {
                                    Err(_) => None,
                                    Ok(None) => None,
                                    Ok(Some(b)) => Some(b),
                                }
                            },
                        }
                    },
                };
                grid.push(slot);
                k = k + 1;
            }
            Ok(grid)
        },
    }
}

/// A decoded container in per-aspect form: block, light and biome grids,
/// with neighbor border strips for blocks and lights.
pub struct Region {
    pub blocks: Vec<Option<Vec<u16>>>,
    pub nblocks: Edges<Vec<Option<Vec<u16>>>>,
    pub lights: Vec<Option<Vec<u8>>>,
    pub nlights: Edges<Vec<Option<Vec<u8>>>>,
    pub biomes: Vec<Option<Vec<u8>>>,
}

impl Region {
    /// All grids have the full 1024 slots.
    pub open spec fn wf(self) -> bool {
        &&& self.blocks@.len() == 1024
        &&& self.nblocks.n@.len() == 1024 && self.nblocks.e@.len() == 1024
        &&& self.nblocks.s@.len() == 1024 && self.nblocks.w@.len() == 1024
        &&& self.lights@.len() == 1024
        &&& self.nlights.n@.len() == 1024 && self.nlights.e@.len() == 1024
        &&& self.nlights.s@.len() == 1024 && self.nlights.w@.len() == 1024
        &&& self.biomes@.len() == 1024
    }
}

/// What a block grid must hold for a possibly absent container file.
pub open spec fn blocks_grid_matches(
    file: Option<Vec<u8>>,
    m: Edges<usize>,
    table: Seq<Seq<u8>>,
    grid: Seq<Option<Vec<u16>>>,
) -> bool {
    grid.len() == 1024 && match file {
        None => forall|i: int| 0 <= i < 1024 ==> #[trigger] grid[i] is None,
        Some(bytes) => forall|i: int|
            0 <= i < 1024 ==> aspect_slot_ok(
                bytes@,
                i % 32,
                i / 32,
                m,
                root_blocks(
                    inflate_of(slot_payload(bytes@, slot_offset(bytes@, i % 32, i / 32))),
                    table,
                ),
                match #[trigger] grid[i] {
                    Some(v) => Some(v@),
                    None => None,
                },
            ),
    }
}

/// What a light grid must hold for a possibly absent container file.
pub open spec fn lights_grid_matches(
    file: Option<Vec<u8>>,
    m: Edges<usize>,
    grid: Seq<Option<Vec<u8>>>,
) -> bool {
    grid.len() == 1024 && match file {
        None => forall|i: int| 0 <= i < 1024 ==> #[trigger] grid[i] is None,
        Some(bytes) => forall|i: int|
            0 <= i < 1024 ==> aspect_slot_ok(
                bytes@,
                i % 32,
                i / 32,
                m,
                root_lights(
                    inflate_of(slot_payload(bytes@, slot_offset(bytes@, i % 32, i / 32))),
                ),
                match #[trigger] grid[i] {
                    Some(v) => Some(v@),
                    None => None,
                },
            ),
    }
}

/// What a biome grid must hold for a possibly absent container file.
pub open spec fn biomes_grid_matches(file: Option<Vec<u8>>, grid: Seq<Option<Vec<u8>>>) -> bool {
    grid.len() == 1024 && match file {
        None => forall|i: int| 0 <= i < 1024 ==> #[trigger] grid[i] is None,
        Some(bytes) => forall|i: int|
            0 <= i < 1024 ==> aspect_slot_ok(
                bytes@,
                i % 32,
                i / 32,
                Edges { n: 0usize, e: 0usize, s: 0usize, w: 0usize },
                root_biomes(
                    inflate_of(slot_payload(bytes@, slot_offset(bytes@, i % 32, i / 32))),
                ),
                match #[trigger] grid[i] {
                    Some(v) => Some(v@),
                    None => None,
                },
            ),
    }
}

/// Decode a container into per-aspect grids, together with the bordering
/// row or column of each of its four neighbors (for blocks and lights). An
/// absent container or neighbor file gives all-absent grids.
pub fn read_region_data(
    file: &Option<Vec<u8>>,
    nfiles: &Edges<Option<Vec<u8>>>,
    blocknames: &Vec<Vec<u8>>,
) -> (r: Result<Region, DecodeError>)
    requires
        blocknames@.len() <= 0x1_0000,
    ensures
        r matches Ok(reg) ==> {
            let table = names_v(blocknames@);
            let zero_m = Edges { n: 0usize, e: 0usize, s: 0usize, w: 0usize };
            let m_n = Edges { n: 31usize, e: 0usize, s: 0usize, w: 0usize };
            let m_s = Edges { n: 0usize, e: 0usize, s: 31usize, w: 0usize };
            let m_w = Edges { n: 0usize, e: 0usize, s: 0usize, w: 31usize };
            let m_e = Edges { n: 0usize, e: 31usize, s: 0usize, w: 0usize };
            &&& reg.wf()
            &&& blocks_grid_matches(*file, zero_m, table, reg.blocks@)
            &&& blocks_grid_matches(nfiles.n, m_n, table, reg.nblocks.n@)
            &&& blocks_grid_matches(nfiles.e, m_e, table, reg.nblocks.e@)
            &&& blocks_grid_matches(nfiles.s, m_s, table, reg.nblocks.s@)
            &&& blocks_grid_matches(nfiles.w, m_w, table, reg.nblocks.w@)
            &&& lights_grid_matches(*file, zero_m, reg.lights@)
            &&& lights_grid_matches(nfiles.n, m_n, reg.nlights.n@)
            &&& lights_grid_matches(nfiles.e, m_e, reg.nlights.e@)
            &&& lights_grid_matches(nfiles.s, m_s, reg.nlights.s@)
            &&& lights_grid_matches(nfiles.w, m_w, reg.nlights.w@)
            &&& biomes_grid_matches(*file, reg.biomes@)
            &&& !has_bad_slot(*file, zero_m)
            &&& !has_bad_slot(nfiles.n, m_n)
            &&& !has_bad_slot(nfiles.e, m_e)
            &&& !has_bad_slot(nfiles.s, m_s)
            &&& !has_bad_slot(nfiles.w, m_w)
        },
        r is Err ==> {
            let zero_m = Edges { n: 0usize, e: 0usize, s: 0usize, w: 0usize };
            let m_n = Edges { n: 31usize, e: 0usize, s: 0usize, w: 0usize };
            let m_s = Edges { n: 0usize, e: 0usize, s: 31usize, w: 0usize };
            let m_w = Edges { n: 0usize, e: 0usize, s: 0usize, w: 31usize };
            let m_e = Edges { n: 0usize, e: 31usize, s: 0usize, w: 0usize };
            ||| has_bad_slot(*file, zero_m)
            ||| has_bad_slot(nfiles.n, m_n)
            ||| has_bad_slot(nfiles.e, m_e)
            ||| has_bad_slot(nfiles.s, m_s)
            ||| has_bad_slot(nfiles.w, m_w)
        },
{
    let zero_m = Edges { n: 0usize, e: 0usize, s: 0usize, w: 0usize };
    let m_n = Edges { n: 31usize, e: 0usize, s: 0usize, w: 0usize };
    let m_s = Edges { n: 0usize, e: 0usize, s: 31usize, w: 0usize };
    let m_w = Edges { n: 0usize, e: 0usize, s: 0usize, w: 31usize };
    let m_e = Edges { n: 0usize, e: 31usize, s: 0usize, w: 0usize };
    let blocks = match read_region_chunk_blocks(file, &zero_m, blocknames) {
        Ok(g) => g,
        Err(e) => {
            return Err(e);
        },
    };
    let bn = match read_region_chunk_blocks(&nfiles.n, &m_n, blocknames) {
        Ok(g) => g,
        Err(e) => {
            return Err(e);
        },
    };
    let bs = match read_region_chunk_blocks(&nfiles.s, &m_s, blocknames) {
        Ok(g) => g,
        Err(e) => {
            return Err(e);
        },
    };
    let bw = match read_region_chunk_blocks(&nfiles.w, &m_w, blocknames) {
        Ok(g) => g,
        Err(e) => {
            return Err(e);
        },
    };
    let be = match read_region_chunk_blocks(&nfiles.e, &m_e, blocknames) {
        Ok(g) => g,
        Err(e) => {
            return Err(e);
        },
    };
    let lights = match read_region_chunk_lightmaps(file, &zero_m) {
        Ok(g) => g,
        Err(e) => {
            return Err(e);
        },
    };
    let ln = match read_region_chunk_lightmaps(&nfiles.n, &m_n) {
        Ok(g) => g,
        Err(e) => {
            return Err(e);
        },
    };
    let ls = match read_region_chunk_lightmaps(&nfiles.s, &m_s) {
        Ok(g) => g,
        Err(e) => {
            return Err(e);
        },
    };
    let lw = match read_region_chunk_lightmaps(&nfiles.w, &m_w) {
        Ok(g) => g,
        Err(e) => {
            return Err(e);
        },
    };
    let le = match read_region_chunk_lightmaps(&nfiles.e, &m_e) {
        Ok(g) => g,
        Err(e) => {
            return Err(e);
        },
    };
    let biomes = match read_region_chunk_biomes(file) {
        Ok(g) => g,
        Err(e) => {
            return Err(e);
        },
    };
    Ok(
        Region {
            blocks,
            nblocks: Edges { n: bn, e: be, s: bs, w: bw },
            lights,
            nlights: Edges { n: ln, e: le, s: ls, w: lw },
            biomes,
        },
    )
}


/// The height map a long array encodes: 256 nine-bit values read from the
/// bit buffer of the first 36 words, highest column first, each truncated
/// to a byte.
pub open spec fn heights_of(words: Seq<u64>) -> Seq<u8> {
    Seq::new(
        256,
        |i: int| (crate::pack::bits_val(words.subrange(0, 36), (255 - i) * 9, 9) % 256) as u8,
    )
}

/// Unpack the fixed-size height map from its packed words: nine bits per
/// column. Fails exactly when fewer than 36 words were stored; words beyond
/// the first 36 are ignored.
pub fn unpack_heights(words: &Vec<u64>) -> (r: Result<Vec<u8>, DecodeError>)
    ensures
        match r {
            Ok(h) => words@.len() >= 36 && h@ == heights_of(words@),
            Err(e) => words@.len() < 36 && e == DecodeError::BadHeightArray,
        },
{
    if words.len() < 36 {
        return Err(DecodeError::BadHeightArray);
    }
    let mut w36: Vec<u64> = Vec::new();
    let mut k: usize = 0;
    while k < 36
        invariant
            k <= 36,
            words@.len() >= 36,
            w36@ =~= words@.subrange(0, k as int),
        decreases 36 - k,
    {
        w36.push(words[k]);
        proof {
            assert(w36@ =~= words@.subrange(0, k + 1));
        }
        k = k + 1;
    }
    let mut h: Vec<u8> = Vec::new();
    let mut i: usize = 0;
    while i < 256
        invariant
            i <= 256,
            w36@ == words@.subrange(0, 36),
            w36@.len() == 36,
            h@.len() == i,
            forall|q: int| 0 <= q < i ==> h@[q] == heights_of(words@)[q],
        decreases 256 - i,
    {
        let v = crate::pack::read_packed_bits(&w36, (255 - i) * 9, 9);
        h.push((v % 256) as u8);
        i = i + 1;
    }
    proof {
        assert(h@ =~= heights_of(words@));
    }
    Ok(h)
}

/// What the height-map pass yields for a unit's root payload: `Some(None)`
/// when the Level compound, the Heightmaps compound or the surface map is
/// absent.
pub open spec fn heights_outcome(data: Seq<u8>, pos: int) -> Option<Option<Seq<u8>>> {
    match seek_spec(data, pos, seq![level_name()]) {
        None => None,
        Some(s1) => match s1 {
            Seek::Absent { .. } => Some(None),
            Seek::Found { code: c1, at: a1, .. } => if c1 != 10 {
                None
            } else {
                match seek_spec(data, a1, seq![crate::names::heightmaps_name()]) {
                    None => None,
                    Some(s2) => match s2 {
                        Seek::Absent { .. } => Some(None),
                        Seek::Found { code: c2, at: a2, .. } => if c2 != 10 {
                            None
                        } else {
                            match seek_spec(data, a2, seq![crate::names::world_surface_name()]) {
                                None => None,
                                Some(s3) => match s3 {
                                    Seek::Absent { .. } => Some(None),
                                    Seek::Found { code: c3, at: a3, .. } => if c3 != 12 {
                                        None
                                    } else {
                                        match parse_payload(data, a3, 12u8) {
                                            Some(pv) => match pv.0 {
                                                TagV::LongArray(words) => if words.len() >= 36 {
                                                    Some(Some(heights_of(words)))
                                                } else {
                                                    None
                                                },
                                                _ => None,
                                            },
                                            None => None,
                                        }
                                    },
                                },
                            }
                        },
                    },
                }
            },
        },
    }
}

/// Decode the surface height map of one unit from a reader at its root
/// payload. `Ok(None)` when the Level compound, the Heightmaps compound or
/// the surface map is absent.
pub fn read_chunk_heightmaps(reader: &mut TagReader) -> (r: Result<Option<Vec<u8>>, DecodeError>)
    requires
        old(reader).wf(),
    ensures
        final(reader).wf(),
        ({
            let outcome = heights_outcome(old(reader).data@, old(reader).pos as int);
            match r {
                Ok(h_opt) => match h_opt {
                    None => outcome == Some(None::<Seq<u8>>),
                    Some(h) => h@.len() == 256 && outcome == Some(Some(h@)),
                },
                Err(_) => outcome is None,
            }
        }),
{
    match reader.seek_compound_tag_name(&name_level()) {
        Err(e) => {
            return Err(e);
        },
        Ok(None) => {
            return Ok(None);
        },
        Ok(Some(c)) => {
            if c != 10 {
                return Err(DecodeError::WrongTagType);
            }
        },
    }
    match reader.seek_compound_tag_name(&crate::names::name_heightmaps()) {
        Err(e) => {
            return Err(e);
        },
        Ok(None) => {
            return Ok(None);
        },
        Ok(Some(c)) => {
            if c != 10 {
                return Err(DecodeError::WrongTagType);
            }
        },
    }
    match reader.seek_compound_tag_name(&crate::names::name_world_surface()) {
        Err(e) => {
            return Err(e);
        },
        Ok(None) => {
            return Ok(None);
        },
        Ok(Some(c)) => {
            if c != 12 {
                return Err(DecodeError::WrongTagType);
            }
        },
    }
    let words = match reader.read_long_array() {
        Err(e) => {
            return Err(e);
        },
        Ok(w) => w,
    };
    match unpack_heights(&words) {
        Ok(h) => Ok(Some(h)),
        Err(e) => Err(e),
    }
}

/// Decode the surface height maps of every slot of the whole grid.
pub fn read_region_chunk_heightmaps(file: &Option<Vec<u8>>) -> (r: Result<
    Vec<Option<Vec<u8>>>,
    DecodeError,
>)
    ensures
        match r {
            Ok(grid) => !has_bad_slot(*file, Edges { n: 0usize, e: 0usize, s: 0usize, w: 0usize })
                && grid@.len() == 1024 && match *file {
                None => forall|i: int| 0 <= i < 1024 ==> #[trigger] grid@[i] is None,
                Some(bytes) => forall|i: int|
                    0 <= i < 1024 ==> aspect_slot_ok(
                        bytes@,
                        i % 32,
                        i / 32,
                        Edges { n: 0usize, e: 0usize, s: 0usize, w: 0usize },
                        root_heights(
                            inflate_of(
                                slot_payload(bytes@, slot_offset(bytes@, i % 32, i / 32)),
                            ),
                        ),
                        match #[trigger] grid@[i] {
                            Some(v) => Some(v@),
                            None => None,
                        },
                    ),
            },
            Err(_) => has_bad_slot(*file, Edges { n: 0usize, e: 0usize, s: 0usize, w: 0usize }),
        },
{
    let mut grid: Vec<Option<Vec<u8>>> = Vec::new();
    match file {
        None => {
            let mut i: usize = 0;
            while i < 1024
                invariant
                    i <= 1024,
                    grid@.len() == i,
                    forall|k: int| 0 <= k < i ==> #[trigger] grid@[k] is None,
                decreases 1024 - i,
            {
                grid.push(None);
                i = i + 1;
            }
            Ok(grid)
        },
        Some(bytes) => {
            let mut k: usize = 0;
            while k < 1024
                invariant
                    k <= 1024,
                    grid@.len() == k,
                    file is Some,
                    *file matches Some(fb) && fb == *bytes,
                    forall|i: int|
                        0 <= i < k ==> !#[trigger] slot_bad(
                            bytes@,
                            Edges { n: 0usize, e: 0usize, s: 0usize, w: 0usize },
                            i,
                        ),
                    forall|i: int|
                        0 <= i < k ==> aspect_slot_ok(
                            bytes@,
                            i % 32,
                            i / 32,
                            Edges { n: 0usize, e: 0usize, s: 0usize, w: 0usize },
                            root_heights(
                                inflate_of(
                                    slot_payload(bytes@, slot_offset(bytes@, i % 32, i / 32)),
                                ),
                            ),
                            match #[trigger] grid@[i] {
                                Some(v) => Some(v@),
                                None => None,
                            },
                        ),
                decreases 1024 - k,
            {
                let cz = k / 32;
                let cx = k % 32;
                proof {
                    vstd::arithmetic::div_mod::lemma_fundamental_div_mod(k as int, 32);
                    vstd::arithmetic::div_mod::lemma_mod_bound(k as int, 32);
                }
                let slot: Option<Vec<u8>> = match crate::container::open_slot(bytes, cx, cz) {
                    Err(e) => {
                        proof {
                            assert(slot_bad(
                                bytes@,
                                Edges { n: 0usize, e: 0usize, s: 0usize, w: 0usize },
                                k as int,
                            ));
                        }
                        return Err(e);
                    },
                    Ok(None) => None,
                    Ok(Some(payload)) => {
                        let mut reader = TagReader::new(payload);
                        match reader.read_tag_header() {
                            Err(_) => None,
                            Ok(_) => {
                                match read_chunk_heightmaps(&mut reader) {
                                    Err(_) => None,
                                    Ok(None) => None,
                                    Ok(Some(h)) => Some(h),
                                }
                            },
                        }
                    },
                };
                grid.push(slot);
                k = k + 1;
            }
            Ok(grid)
        },
    }
}

/// What the height-map pass of a decoded root payload yields for a slot.
pub open spec fn root_heights(payload: Seq<u8>) -> Option<Seq<u8>> {
    match crate::nbt::parse_header(payload, 0) {
        None => None,
        Some((c, nm, p)) => match heights_outcome(payload, p) {
            None => None,
            Some(o) => o,
        },
    }
}

} // verus!
