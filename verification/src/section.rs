//! Shared decoding of one vertical section: palette resolution against the
//! block-name table, combination of the two light nibble arrays into one
//! byte per voxel, and the top-to-bottom copy-down that fills light for
//! sections that carry no light data.

use vstd::prelude::*;

use crate::error::DecodeError;
use crate::names::entry_name_name;
use crate::nbt::{compound_get, lookup, name_index, names_v, read_bytes_at, Tag, TagV};

verus! {

/// The name after its namespace prefix: the bytes after the first colon,
/// when one occurs.
pub open spec fn after_colon(nm: Seq<u8>) -> Option<Seq<u8>>
    decreases nm.len(),
{
    if nm.len() == 0 {
        None
    } else if nm[0] == 58u8 {
        Some(nm.drop_first())
    } else {
        after_colon(nm.drop_first())
    }
}

/// A namespaced name with its prefix stripped: the bytes after the first
/// colon, or the whole name when it has none.
pub open spec fn strip_namespace(nm: Seq<u8>) -> Seq<u8> {
    match after_colon(nm) {
        Some(s) => s,
        None => nm,
    }
}

/// Skipping a colon-free prefix does not change where the first colon is.
proof fn lemma_after_colon_skip(nm: Seq<u8>, i: int)
    requires
        0 <= i <= nm.len(),
        forall|k: int| 0 <= k < i ==> nm[k] != 58u8,
    ensures
        after_colon(nm) == after_colon(nm.skip(i)),
    decreases i,
{
    if i > 0 {
        lemma_after_colon_skip(nm, i - 1);
        assert(nm.skip(i - 1).len() > 0);
        assert(nm.skip(i - 1)[0] == nm[i - 1]);
        assert(nm.skip(i - 1).drop_first() =~= nm.skip(i));
    } else {
        assert(nm.skip(0) =~= nm);
    }
}

/// The name with its namespace prefix stripped.
pub fn strip_prefix(nm: &Vec<u8>) -> (r: Vec<u8>)
    ensures
        r@ == strip_namespace(nm@),
{
    let len = nm.len();
    let mut i: usize = 0;
    while i < len
        invariant
            i <= len,
            len == nm@.len(),
            forall|k: int| 0 <= k < i ==> nm@[k] != 58u8,
        decreases len - i,
    {
        if nm[i] == 58 {
            let r = read_bytes_at(nm, i + 1, len - (i + 1));
            proof {
                lemma_after_colon_skip(nm@, i as int);
                assert(nm@.skip(i as int)[0] == 58u8);
                assert(nm@.skip(i as int).drop_first() =~= nm@.subrange(i + 1, len as int));
            }
            return r;
        }
        i = i + 1;
    }
    proof {
        lemma_after_colon_skip(nm@, len as int);
        assert(nm@.skip(len as int).len() == 0);
    }
    vstd::slice::slice_to_vec(nm.as_slice())
}

/// The table position a palette entry resolves to: the entry must be a
/// compound whose Name field is a string; its stripped name must occur in
/// the table.
pub open spec fn resolve_entry(t: TagV, table: Seq<Seq<u8>>) -> Option<int> {
    match t {
        TagV::Compound(entries) => match lookup(entries, entry_name_name()) {
            Some(nv) => match nv {
                TagV::Str(nm) => name_index(table, strip_namespace(nm)),
                _ => None,
            },
            _ => None,
        },
        _ => None,
    }
}

/// The local-index-to-table-position palette: every entry must resolve.
pub open spec fn resolve_palette_spec(pal: Seq<TagV>, table: Seq<Seq<u8>>) -> Option<Seq<u16>>
    decreases pal.len(),
{
    if pal.len() == 0 {
        Some(Seq::empty())
    } else {
        match resolve_palette_spec(pal.drop_last(), table) {
            None => None,
            Some(rest) => match resolve_entry(pal.last(), table) {
                Some(idx) => Some(rest.push(idx as u16)),
                None => None,
            },
        }
    }
}

/// Resolve each palette entry's stripped Name against the block-name table.
///
/// Fails exactly when an entry is not a compound, has no string Name, or
/// names a block the table does not hold.
pub fn resolve_palette(pal: &Vec<Tag>, table: &Vec<Vec<u8>>) -> (r: Result<Vec<u16>, DecodeError>)
    requires
        table@.len() <= 0x1_0000,
    ensures
        match r {
            Ok(v) => resolve_palette_spec(crate::nbt::tags_v(pal@), names_v(table@)) == Some(v@),
            Err(e) => resolve_palette_spec(crate::nbt::tags_v(pal@), names_v(table@)) is None
                && e == DecodeError::BadPalette,
        },
{
    let mut out: Vec<u16> = Vec::new();
    let n = pal.len();
    let mut i: usize = 0;
    proof {
        assert(crate::nbt::tags_v(pal@).take(0) =~= Seq::<TagV>::empty());
    }
    while i < n
        invariant
            i <= n,
            n == pal@.len(),
            table@.len() <= 0x1_0000,
            resolve_palette_spec(crate::nbt::tags_v(pal@).take(i as int), names_v(table@))
                == Some(out@),
        decreases n - i,
    {
        let entry = &pal[i];
        let idx: usize = match entry {
            Tag::Compound(entries) => {
                let nm_tag = compound_get(entries, &crate::names::name_entry_name());
                match nm_tag {
                    Some(t) => match t {
                        Tag::Str(nm) => {
                            let stripped = strip_prefix(nm);
                            match crate::nbt::find_name(table, &stripped) {
                                Some(j) => j,
                                None => {
                                    proof {
                                        lemma_resolve_palette_take_fail(
                                            crate::nbt::tags_v(pal@),
                                            names_v(table@),
                                            i as int,
                                        );
                                    }
                                    return Err(DecodeError::BadPalette);
                                },
                            }
                        },
                        _ => {
                            proof {
                                lemma_resolve_palette_take_fail(
                                    crate::nbt::tags_v(pal@),
                                    names_v(table@),
                                    i as int,
                                );
                            }
                            return Err(DecodeError::BadPalette);
                        },
                    },
                    None => {
                        proof {
                            lemma_resolve_palette_take_fail(
                                crate::nbt::tags_v(pal@),
                                names_v(table@),
                                i as int,
                            );
                        }
                        return Err(DecodeError::BadPalette);
                    },
                }
            },
            _ => {
                proof {
                    lemma_resolve_palette_take_fail(
                        crate::nbt::tags_v(pal@),
                        names_v(table@),
                        i as int,
                    );
                }
                return Err(DecodeError::BadPalette);
            },
        };
        out.push(idx as u16);
        proof {
            let tv = crate::nbt::tags_v(pal@);
            assert(tv.take(i + 1).drop_last() =~= tv.take(i as int));
            assert(tv.take(i + 1).last() == tv[i as int]);
        }
        i = i + 1;
    }
    proof {
        assert(crate::nbt::tags_v(pal@).take(n as int) =~= crate::nbt::tags_v(pal@));
    }
    Ok(out)
}

/// When some prefix of the palette resolves but entry `i` does not, the
/// whole palette fails to resolve.
proof fn lemma_resolve_palette_take_fail(pal: Seq<TagV>, table: Seq<Seq<u8>>, i: int)
    requires
        0 <= i < pal.len(),
        resolve_entry(pal[i], table) is None,
    ensures
        resolve_palette_spec(pal, table) is None,
{
    lemma_resolve_palette_prefix_fail(pal, table, i, pal.len() as int);
}

/// Failure of one entry propagates to every longer prefix.
proof fn lemma_resolve_palette_prefix_fail(pal: Seq<TagV>, table: Seq<Seq<u8>>, i: int, k: int)
    requires
        0 <= i < k <= pal.len(),
        resolve_entry(pal[i], table) is None,
    ensures
        resolve_palette_spec(pal.take(k), table) is None,
        k == pal.len() ==> resolve_palette_spec(pal, table) is None,
    decreases k,
{
    let pk = pal.take(k);
    if i == k - 1 {
        assert(pk.last() == pal[i]);
    } else {
        lemma_resolve_palette_prefix_fail(pal, table, i, k - 1);
        assert(pk.drop_last() =~= pal.take(k - 1));
    }
    if k == pal.len() {
        assert(pal.take(k) =~= pal);
    }
}

/// The combined light byte of voxel `i` of a section, from its block-light
/// and sky-light nibble arrays: block light in the high four bits, sky
/// light in the low four.
pub open spec fn combined_light(bb: Seq<u8>, sb: Seq<u8>, i: int) -> u8 {
    if i % 2 == 0 {
        ((bb[i / 2] & 0x0f) << 4u8) | (sb[i / 2] & 0x0f)
    } else {
        (bb[i / 2] & 0xf0) | (sb[i / 2] >> 4u8)
    }
}

/// Write the combined light of one section over `lights[so .. so + 4096]`.
pub fn combine_section_lights(bb: &Vec<u8>, sb: &Vec<u8>, lights: &mut Vec<u8>, so: usize)
    requires
        bb@.len() == 2048,
        sb@.len() == 2048,
        old(lights)@.len() == 65536,
        so + 4096 <= 65536,
    ensures
        final(lights)@.len() == 65536,
        forall|j: int|
            #![auto]
            0 <= j < 65536 ==> final(lights)@[j] == if so <= j < so + 4096 {
                combined_light(bb@, sb@, j - so)
            } else {
                old(lights)@[j]
            },
{
    let mut i: usize = 0;
    while i < 2048
        invariant
            i <= 2048,
            bb@.len() == 2048,
            sb@.len() == 2048,
            lights@.len() == 65536,
            so + 4096 <= 65536,
            forall|j: int|
                #![auto]
                0 <= j < 65536 ==> lights@[j] == if so <= j < so + 2 * i {
                    combined_light(bb@, sb@, j - so)
                } else {
                    old(lights)@[j]
                },
        decreases 2048 - i,
    {
        let low = ((bb[i] & 0x0f) << 4u8) | (sb[i] & 0x0f);
        let high = (bb[i] & 0xf0) | (sb[i] >> 4u8);
        lights.set(so + i * 2, low);
        lights.set(so + i * 2 + 1, high);
        proof {
            assert((so + i * 2) - so == 2 * (i as int) && ((so + i * 2) - so) % 2 == 0
                && ((so + i * 2) - so) / 2 == i as int);
            assert((so + i * 2 + 1) - so == 2 * (i as int) + 1 && ((so + i * 2 + 1) - so) % 2 == 1
                && ((so + i * 2 + 1) - so) / 2 == i as int);
        }
        i = i + 1;
    }
}

/// The bottom-most resolved light layer above section `y`: the bottom layer
/// of the nearest section above it that has light data, or full sky light
/// above the top of the unit.
pub open spec fn above_layer(lights: Seq<u8>, present: Seq<bool>, y: int) -> Seq<u8>
    decreases 16 - y,
{
    if y >= 15 {
        Seq::new(256, |i: int| 0x0fu8)
    } else if present[y + 1] {
        lights.subrange((y + 1) * 4096, (y + 1) * 4096 + 256)
    } else {
        above_layer(lights, present, y + 1)
    }
}

/// The light byte of voxel `j` after gap filling: a voxel of a section with
/// light data keeps its value; one of a section without takes the layer
/// above, replicated over all its layers.
pub open spec fn gap_filled(lights: Seq<u8>, present: Seq<bool>, j: int) -> u8 {
    let y = j / 4096;
    if present[y] {
        lights[j]
    } else {
        above_layer(lights, present, y)[j % 256]
    }
}

/// Fill the light of sections without light data by copying, top to bottom,
/// the bottom layer of the nearest resolved section above; an unresolved top
/// defaults to full sky light and no block light.
pub fn fill_light_gaps(lights: &mut Vec<u8>, present: &Vec<bool>)
    requires
        old(lights)@.len() == 65536,
        present@.len() == 16,
    ensures
        final(lights)@.len() == 65536,
        forall|j: int|
            #![auto]
            0 <= j < 65536 ==> final(lights)@[j] == gap_filled(old(lights)@, present@, j),
{
    let ghost l0 = lights@;
    let mut above: Vec<u8> = Vec::new();
    let mut o: usize = 0;
    while o < 256
        invariant
            o <= 256,
            above@.len() == o,
            forall|k: int| 0 <= k < o ==> above@[k] == 0x0fu8,
        decreases 256 - o,
    {
        above.push(0x0f);
        o = o + 1;
    }
    proof {
        assert(above@ =~= above_layer(l0, present@, 15));
    }
    let mut yi: usize = 16;
    while yi > 0
        invariant
            yi <= 16,
            present@.len() == 16,
            lights@.len() == 65536,
            l0 == old(lights)@,
            l0.len() == 65536,
            above@.len() == 256,
            above@ =~= above_layer(l0, present@, yi as int - 1),
            forall|j: int|
                #![auto]
                yi * 4096 <= j < 65536 ==> lights@[j] == gap_filled(l0, present@, j),
            forall|j: int| #![auto] 0 <= j < yi * 4096 ==> lights@[j] == l0[j],
        decreases yi,
    {
        let y = yi - 1;
        if !present[y] {
            let mut t: usize = 0;
            while t < 4096
                invariant
                    t <= 4096,
                    y == yi - 1,
                    yi <= 16,
                    present@.len() == 16,
                    !present@[y as int],
                    lights@.len() == 65536,
                    l0.len() == 65536,
                    above@.len() == 256,
                    above@ =~= above_layer(l0, present@, yi as int - 1),
                    forall|j: int|
                        #![auto]
                        yi * 4096 <= j < 65536 ==> lights@[j] == gap_filled(
                            l0,
                            present@,
                            j,
                        ),
                    forall|j: int|
                        #![auto]
                        y * 4096 <= j < y * 4096 + t ==> lights@[j] == above@[(j - y * 4096) % 256],
                    forall|j: int| #![auto] 0 <= j < y * 4096 ==> lights@[j] == l0[j],
                decreases 4096 - t,
            {
                proof {
                    vstd::arithmetic::div_mod::lemma_mod_bound(t as int, 256);
                }
                lights.set(y * 4096 + t, above[t % 256]);
                t = t + 1;
            }
            proof {
                assert forall|j: int| y * 4096 <= j < y * 4096 + 4096 implies lights@[j]
                    == gap_filled(l0, present@, j) by {
                    lemma_section_offset(j, y as int);
                    assert(lights@[j] == above@[(j - y * 4096) % 256]);
                    assert((j - y * 4096) % 256 == j % 256) by {
                        lemma_mod_multiple_plus(j, y as int);
                    }
                }
            }
        } else {
            let mut o2: usize = 0;
            while o2 < 256
                invariant
                    o2 <= 256,
                    y == yi - 1,
                    yi <= 16,
                    present@.len() == 16,
                    present@[y as int],
                    lights@.len() == 65536,
                    l0.len() == 65536,
                    above@.len() == 256,
                    forall|j: int|
                        #![auto]
                        yi * 4096 <= j < 65536 ==> lights@[j] == gap_filled(
                            l0,
                            present@,
                            j,
                        ),
                    forall|j: int| #![auto] 0 <= j < yi * 4096 ==> lights@[j] == l0[j],
                    forall|k: int|
                        #![auto]
                        0 <= k < o2 ==> above@[k] == l0[y * 4096 + k],
                decreases 256 - o2,
            {
                let v = lights[y * 4096 + o2];
                above.set(o2, v);
                o2 = o2 + 1;
            }
            proof {
                assert forall|k: int| 0 <= k < 256 implies above@[k] == l0.subrange(
                    y as int * 4096,
                    y as int * 4096 + 256,
                )[k] by {
                    assert(above@[k] == l0[y * 4096 + k]);
                }
                assert(above@ =~= l0.subrange(
                    y as int * 4096,
                    y as int * 4096 + 256,
                ));
                assert forall|j: int| y * 4096 <= j < y * 4096 + 4096 implies lights@[j]
                    == gap_filled(l0, present@, j) by {
                    lemma_section_offset(j, y as int);
                }
            }
        }
        yi = yi - 1;
    }
}

/// A voxel index within section `y` divides down to `y`.
proof fn lemma_section_offset(j: int, y: int)
    requires
        y * 4096 <= j < y * 4096 + 4096,
    ensures
        j / 4096 == y,
{
    vstd::arithmetic::div_mod::lemma_fundamental_div_mod_converse(j, 4096, y, j - y * 4096);
}

/// Offsets into a section agree modulo a layer, because a section is a
/// whole number of layers.
proof fn lemma_mod_multiple_plus(j: int, y: int)
    requires
        y * 4096 <= j,
    ensures
        (j - y * 4096) % 256 == j % 256,
{
    let o = j - y * 4096;
    assert(j == (16 * y) * 256 + o) by (nonlinear_arith)
        requires o == j - y * 4096;
    vstd::arithmetic::div_mod::lemma_mod_multiples_vanish(16 * y, o, 256);
}

} // verus!
