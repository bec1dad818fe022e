//! Tests of the tag reader, the container layout and the unit decoder, on
//! hand-built binary fixtures.

use worldread::container::{locate, open_slot, read_region_chunk_coords, read_region_chunks};
use worldread::error::DecodeError;
use worldread::nbt::{Tag, TagReader};
use worldread::region2::{read_region_chunk, ChunkData};
use worldread::types::{Edges, Pair};

fn be16(v: u16) -> Vec<u8> {
    vec![(v >> 8) as u8, v as u8]
}

fn be32(v: u32) -> Vec<u8> {
    vec![(v >> 24) as u8, (v >> 16) as u8, (v >> 8) as u8, v as u8]
}

fn be64(v: u64) -> Vec<u8> {
    let mut out = Vec::new();
    for b in 0..8 {
        out.push((v >> ((7 - b) * 8)) as u8);
    }
    out
}

/// A tag header: type code, then a length-prefixed name.
fn header(code: u8, name: &str) -> Vec<u8> {
    let mut out = vec![code];
    out.extend(be16(name.len() as u16));
    out.extend(name.as_bytes());
    out
}

/// A named tag: header then payload.
fn entry(code: u8, name: &str, payload: &[u8]) -> Vec<u8> {
    let mut out = header(code, name);
    out.extend(payload);
    out
}

/// A compound payload: the given entries, then the End tag.
fn compound(entries: &[Vec<u8>]) -> Vec<u8> {
    let mut out = Vec::new();
    for e in entries {
        out.extend(e.iter());
    }
    out.push(0);
    out
}

/// A list payload: element type, count, then the element payloads.
fn list(ec: u8, elems: &[Vec<u8>]) -> Vec<u8> {
    let mut out = vec![ec];
    out.extend(be32(elems.len() as u32));
    for e in elems {
        out.extend(e.iter());
    }
    out
}

/// A byte-array payload.
fn byte_array(data: &[u8]) -> Vec<u8> {
    let mut out = be32(data.len() as u32);
    out.extend(data);
    out
}

/// A long-array payload.
fn long_array(vals: &[u64]) -> Vec<u8> {
    let mut out = be32(vals.len() as u32);
    for v in vals {
        out.extend(be64(*v));
    }
    out
}

/// A string payload.
fn string_payload(s: &str) -> Vec<u8> {
    let mut out = be16(s.len() as u16);
    out.extend(s.as_bytes());
    out
}

/// A palette entry: a compound holding a Name string.
fn palette_entry(name: &str) -> Vec<u8> {
    compound(&[entry(8, "Name", &string_payload(name))])
}

/// Pack 4096 four-bit local indices into 256 words, low voxel at the low
/// bits of the low word.
fn pack_4bit(indices: &[u16]) -> Vec<u64> {
    assert_eq!(indices.len(), 4096);
    let mut words = vec![0u64; 256];
    for (i, v) in indices.iter().enumerate() {
        words[i / 16] |= (*v as u64) << ((i % 16) * 4);
    }
    words
}

/// The root compound payload of a unit: a Level compound with the given
/// entries.
fn level_root(level_entries: &[Vec<u8>]) -> Vec<u8> {
    compound(&[entry(10, "Level", &compound(level_entries))])
}

fn blocknames(names: &[&str]) -> Vec<Vec<u8>> {
    names.iter().map(|n| n.as_bytes().to_vec()).collect()
}

#[test]
fn skip_scalars_then_sibling() {
    // A compound with one child of each scalar type, then a marker child.
    let body = compound(&[
        entry(1, "a", &[7]),
        entry(2, "b", &be16(300)),
        entry(3, "c", &be32(70000)),
        entry(4, "d", &be64(1 << 40)),
        entry(5, "e", &be32(0x3f800000)),
        entry(6, "f", &be64(0x3ff0000000000000)),
        entry(7, "g", &byte_array(&[1, 2, 3])),
        entry(8, "h", &string_payload("hey")),
        entry(3, "marker", &be32(42)),
    ]);
    let mut r = TagReader::new(body);
    for _ in 0..8 {
        let (code, _name) = r.read_tag_header().unwrap();
        assert_ne!(code, 0);
        r.skip_payload(code).unwrap();
    }
    let (code, name) = r.read_tag_header().unwrap();
    assert_eq!(code, 3);
    assert_eq!(name, b"marker".to_vec());
}

#[test]
fn skip_deep_nesting_then_sibling() {
    // Compound of list of compounds, nested, then a sibling header.
    let inner = compound(&[
        entry(9, "l", &list(10, &[
            compound(&[entry(1, "x", &[1])]),
            compound(&[entry(9, "l2", &list(3, &[be32(1), be32(2)]))]),
        ])),
    ]);
    let body = compound(&[
        entry(10, "deep", &inner),
        entry(8, "after", &string_payload("tail")),
    ]);
    let mut r = TagReader::new(body);
    let (code, name) = r.read_tag_header().unwrap();
    assert_eq!((code, name.as_slice()), (10, b"deep".as_slice()));
    r.skip_payload(code).unwrap();
    let (code2, name2) = r.read_tag_header().unwrap();
    assert_eq!(code2, 8);
    assert_eq!(name2, b"after".to_vec());
}

#[test]
fn skip_list_of_end_tags() {
    // A list of End elements occupies no element bytes.
    let body = compound(&[
        entry(9, "weird", &list(0, &[vec![], vec![]])),
        entry(1, "after", &[9]),
    ]);
    let mut r = TagReader::new(body);
    let (code, _) = r.read_tag_header().unwrap();
    r.skip_payload(code).unwrap();
    let (code2, name2) = r.read_tag_header().unwrap();
    assert_eq!(code2, 1);
    assert_eq!(name2, b"after".to_vec());
}

#[test]
fn skip_bad_type_code_fails() {
    let mut r = TagReader::new(vec![1, 2, 3]);
    assert_eq!(r.skip_payload(13), Err(DecodeError::BadTypeCode));
}

#[test]
fn skip_truncated_array_fails() {
    // Declares 100 bytes but holds 2.
    let mut body = be32(100);
    body.extend([1, 2]);
    let mut r = TagReader::new(body);
    assert_eq!(r.skip_payload(7), Err(DecodeError::Truncated));
}

#[test]
fn seek_finds_later_sibling() {
    let body = compound(&[
        entry(1, "first", &[1]),
        entry(3, "second", &be32(5)),
        entry(8, "third", &string_payload("x")),
    ]);
    let mut r = TagReader::new(body);
    let hit = r.seek_compound_tag_name(&b"third".to_vec()).unwrap();
    assert_eq!(hit, Some(8));
}

#[test]
fn seek_absent_reports_none() {
    let body = compound(&[entry(1, "only", &[1])]);
    let mut r = TagReader::new(body);
    let hit = r.seek_compound_tag_name(&b"missing".to_vec()).unwrap();
    assert_eq!(hit, None);
}

#[test]
fn materialize_selected_names() {
    let body = compound(&[
        entry(1, "keep", &[3]),
        entry(1, "drop", &[4]),
        entry(8, "keep2", &string_payload("v")),
    ]);
    let mut r = TagReader::new(body);
    let names = vec![b"keep".to_vec(), b"keep2".to_vec()];
    let entries = r.read_compound_tag_names(&names).unwrap();
    assert_eq!(entries.len(), 2);
    assert_eq!(entries[0].0, b"keep".to_vec());
    assert!(matches!(entries[0].1, Tag::Byte(3)));
    assert_eq!(entries[1].0, b"keep2".to_vec());
    match &entries[1].1 {
        Tag::Str(s) => assert_eq!(s, &b"v".to_vec()),
        _ => panic!("expected a string tag"),
    }
}

#[test]
fn locate_reads_sector_offsets() {
    let mut table = vec![0u8; 4096];
    // Slot (1, 0): offset 2 sectors, count 1.
    table[4] = 0;
    table[5] = 0;
    table[6] = 2;
    table[7] = 1;
    let r = locate(&table, 1, 0).unwrap();
    assert_eq!(r, Some((8192, 1)));
    assert_eq!(locate(&table, 0, 0).unwrap(), None);
}

#[test]
fn zeroed_table_has_no_chunks() {
    let table = vec![0u8; 4096];
    let coords = read_region_chunk_coords(&table, &None).unwrap();
    assert!(coords.is_empty());
    let flags = read_region_chunks(&table).unwrap();
    assert!(flags.iter().all(|p| !p));
}

#[test]
fn coords_respect_bounds() {
    let mut table = vec![0u8; 4096];
    // Occupy (0,0), (31,0), (0,31).
    for idx in [0usize, 31, 31 * 32] {
        table[idx * 4 + 2] = 1;
    }
    let all = read_region_chunk_coords(&table, &None).unwrap();
    assert_eq!(
        all,
        vec![
            Pair { x: 0, z: 0 },
            Pair { x: 31, z: 0 },
            Pair { x: 0, z: 31 }
        ]
    );
    let strip = read_region_chunk_coords(
        &table,
        &Some(Edges { n: 0, e: 31, s: 0, w: 0 }),
    )
    .unwrap();
    assert_eq!(strip, vec![Pair { x: 0, z: 0 }, Pair { x: 31, z: 0 }]);
}

#[test]
fn truncated_table_is_an_error() {
    let table = vec![0u8; 100];
    assert_eq!(
        read_region_chunk_coords(&table, &None),
        Err(DecodeError::Truncated)
    );
}

fn zlib_compress(data: &[u8]) -> Vec<u8> {
    let mut enc = flate2::read::ZlibEncoder::new(data, flate2::Compression::default());
    let mut out = Vec::new();
    std::io::Read::read_to_end(&mut enc, &mut out).unwrap();
    out
}

/// A container file holding the given root payloads at the given slots.
fn region_file(slots: &[((usize, usize), Vec<u8>)]) -> Vec<u8> {
    let mut file = vec![0u8; 4096];
    for (i, ((x, z), payload)) in slots.iter().enumerate() {
        let sector = 1 + i;
        let idx = (z * 32 + x) * 4;
        file[idx] = 0;
        file[idx + 1] = (sector >> 8) as u8;
        file[idx + 2] = sector as u8;
        file[idx + 3] = 1;
        let mut root = header(10, "");
        root.extend(payload.iter());
        let compressed = zlib_compress(&root);
        let mut blob = be32(compressed.len() as u32 + 1);
        blob.push(2);
        blob.extend(compressed);
        assert!(blob.len() <= 4096, "payload too large for one sector");
        let at = sector * 4096;
        if file.len() < at + 4096 {
            file.resize(at + 4096, 0);
        }
        file[at..at + blob.len()].copy_from_slice(&blob);
    }
    file
}

#[test]
fn open_slot_roundtrips_through_compression() {
    let payload = level_root(&[]);
    let file = region_file(&[((3, 2), payload.clone())]);
    let mut root = header(10, "");
    root.extend(payload);
    let out = open_slot(&file, 3, 2).unwrap().unwrap();
    assert_eq!(out, root);
    // The stored bytes are compressed: they differ from what comes out.
    let stored = &file[4096 + 5..4096 + 5 + 10];
    assert_ne!(&out[..10.min(out.len())], stored);
    assert_eq!(open_slot(&file, 0, 0).unwrap(), None);
}

#[test]
fn open_slot_rejects_other_schemes() {
    let mut file = region_file(&[((0, 0), level_root(&[]))]);
    file[4096 + 4] = 1;
    assert_eq!(open_slot(&file, 0, 0), Err(DecodeError::BadScheme));
}

#[test]
fn open_slot_rejects_garbage_stream() {
    let mut file = vec![0u8; 8192];
    file[2] = 1; // slot (0,0) at sector 1
    file[3] = 1;
    file[4096..4100].copy_from_slice(&be32(4));
    file[4100] = 2;
    file[4101] = 0xde;
    file[4102] = 0xad;
    file[4103] = 0xbe;
    assert_eq!(open_slot(&file, 0, 0), Err(DecodeError::Inflate));
}

fn decode_unit(payload: Vec<u8>, names: &[&str]) -> Result<Option<ChunkData>, DecodeError> {
    let mut r = TagReader::new(payload);
    read_region_chunk(&mut r, &blocknames(names))
}

#[test]
fn unit_without_level_is_absent() {
    let payload = compound(&[entry(1, "Other", &[1])]);
    let c = decode_unit(payload, &[]).unwrap();
    assert!(c.is_none());
}

#[test]
fn empty_unit_has_default_arrays() {
    let c = decode_unit(level_root(&[]), &[]).unwrap().unwrap();
    assert_eq!(c.blocks.len(), 65536);
    assert!(c.blocks.iter().all(|b| *b == 0));
    // With no light data anywhere, every voxel falls back to full sky
    // light and no block light.
    assert!(c.lights.iter().all(|l| *l == 0x0f));
    assert!(c.biomes.iter().all(|b| *b == 0));
}

#[test]
fn packed_blocks_decode_bit_for_bit() {
    // A 16-entry palette gives a four-bit width: 256 words for 4096 indices.
    let reference: Vec<u16> = (0..4096u32).map(|i| ((i * 7 + 3) % 16) as u16).collect();
    let words = pack_4bit(&reference);
    assert_eq!(words.len(), 256);
    let palette: Vec<Vec<u8>> = (0..16)
        .map(|i| palette_entry(&format!("minecraft:b{}", i)))
        .collect();
    let names: Vec<String> = (0..16).map(|i| format!("b{}", i)).collect();
    let name_refs: Vec<&str> = names.iter().map(|s| s.as_str()).collect();
    let section = compound(&[
        entry(1, "Y", &[0]),
        entry(9, "Palette", &list(10, &palette)),
        entry(12, "BlockStates", &long_array(&words)),
    ]);
    let payload = level_root(&[entry(9, "Sections", &list(10, &[section]))]);
    let c = decode_unit(payload, &name_refs).unwrap().unwrap();
    for i in 0..4096 {
        assert_eq!(c.blocks[i], reference[i], "voxel {}", i);
    }
    for i in 4096..65536 {
        assert_eq!(c.blocks[i], 0);
    }
}

#[test]
fn unknown_palette_name_is_an_error() {
    let words = pack_4bit(&vec![0u16; 4096]);
    let section = compound(&[
        entry(1, "Y", &[0]),
        entry(9, "Palette", &list(10, &[palette_entry("minecraft:unknown")])),
        entry(12, "BlockStates", &long_array(&words)),
    ]);
    let payload = level_root(&[entry(9, "Sections", &list(10, &[section]))]);
    assert_eq!(decode_unit(payload, &["known"]), Err(DecodeError::BadPalette));
}

#[test]
fn oversized_bit_width_is_an_error() {
    // 1088 words imply a width of 17 bits, beyond the widest read.
    let words = vec![0u64; 1088];
    let section = compound(&[
        entry(1, "Y", &[0]),
        entry(9, "Palette", &list(10, &[palette_entry("a")])),
        entry(12, "BlockStates", &long_array(&words)),
    ]);
    let payload = level_root(&[entry(9, "Sections", &list(10, &[section]))]);
    assert_eq!(decode_unit(payload, &["a"]), Err(DecodeError::BadBitWidth));
}

#[test]
fn biomes_of_exact_length_are_copied() {
    let biome_bytes: Vec<u8> = (0..256u32).map(|i| (i % 7) as u8).collect();
    let payload = level_root(&[entry(7, "Biomes", &byte_array(&biome_bytes))]);
    let c = decode_unit(payload, &[]).unwrap().unwrap();
    assert_eq!(c.biomes, biome_bytes);
}

#[test]
fn biomes_of_length_255_stay_default() {
    let payload = level_root(&[entry(7, "Biomes", &byte_array(&vec![9u8; 255]))]);
    let c = decode_unit(payload, &[]).unwrap().unwrap();
    assert!(c.biomes.iter().all(|b| *b == 0));
}

#[test]
fn biomes_of_length_257_stay_default() {
    let payload = level_root(&[entry(7, "Biomes", &byte_array(&vec![9u8; 257]))]);
    let c = decode_unit(payload, &[]).unwrap().unwrap();
    assert!(c.biomes.iter().all(|b| *b == 0));
}

#[test]
fn light_nibbles_combine_block_high_sky_low() {
    // One byte packs two voxels of each channel: low nibble first.
    let bl = vec![0x21u8; 2048];
    let sl = vec![0x43u8; 2048];
    let section = compound(&[
        entry(1, "Y", &[0]),
        entry(7, "BlockLight", &byte_array(&bl)),
        entry(7, "SkyLight", &byte_array(&sl)),
    ]);
    let payload = level_root(&[entry(9, "Sections", &list(10, &[section]))]);
    let c = decode_unit(payload, &[]).unwrap().unwrap();
    // Even voxel: block nibble 1, sky nibble 3; odd voxel: block 2, sky 4.
    assert_eq!(c.lights[0], 0x13);
    assert_eq!(c.lights[1], 0x24);
    assert_eq!(c.lights[4094], 0x13);
    assert_eq!(c.lights[4095], 0x24);
}

#[test]
fn missing_channel_defaults_to_zero_nibbles() {
    let sl = vec![0xffu8; 2048];
    let section = compound(&[
        entry(1, "Y", &[0]),
        entry(7, "SkyLight", &byte_array(&sl)),
    ]);
    let payload = level_root(&[entry(9, "Sections", &list(10, &[section]))]);
    let c = decode_unit(payload, &[]).unwrap().unwrap();
    assert_eq!(c.lights[0], 0x0f);
    assert_eq!(c.lights[1], 0x0f);
}

#[test]
fn wrong_length_light_array_is_an_error() {
    let section = compound(&[
        entry(1, "Y", &[0]),
        entry(7, "SkyLight", &byte_array(&vec![0u8; 100])),
    ]);
    let payload = level_root(&[entry(9, "Sections", &list(10, &[section]))]);
    assert_eq!(decode_unit(payload, &[]), Err(DecodeError::BadLightArray));
}

#[test]
fn light_copies_down_from_topmost_section() {
    // Light data only in the topmost section; a varied bottom layer.
    let mut bl = vec![0u8; 2048];
    let mut sl = vec![0u8; 2048];
    for i in 0..128 {
        // The bottom layer of the section covers voxels 0..256, nibble
        // pairs 0..128.
        bl[i] = (i % 16) as u8 | 0x30;
        sl[i] = ((i * 5) % 16) as u8 | 0x50;
    }
    let section = compound(&[
        entry(1, "Y", &[15]),
        entry(7, "BlockLight", &byte_array(&bl)),
        entry(7, "SkyLight", &byte_array(&sl)),
    ]);
    let payload = level_root(&[entry(9, "Sections", &list(10, &[section]))]);
    let c = decode_unit(payload, &[]).unwrap().unwrap();
    let top_bottom_layer: Vec<u8> =
        c.lights[15 * 4096..15 * 4096 + 256].to_vec();
    for y in 0..15 {
        for layer in 0..16 {
            let at = y * 4096 + layer * 256;
            assert_eq!(
                &c.lights[at..at + 256],
                top_bottom_layer.as_slice(),
                "section {} layer {}",
                y,
                layer
            );
        }
    }
}

#[test]
fn sections_above_the_top_are_ignored() {
    let words = pack_4bit(&vec![0u16; 4096]);
    let section = compound(&[
        entry(1, "Y", &[16]),
        entry(9, "Palette", &list(10, &[palette_entry("a")])),
        entry(12, "BlockStates", &long_array(&words)),
    ]);
    let payload = level_root(&[entry(9, "Sections", &list(10, &[section]))]);
    let c = decode_unit(payload, &["a"]).unwrap().unwrap();
    assert!(c.blocks.iter().all(|b| *b == 0));
}

#[test]
fn biomes_with_wrong_type_code_are_an_error() {
    // A Biomes tag stored as an IntArray instead of a ByteArray.
    let mut int_payload = be32(256);
    for _ in 0..256 {
        int_payload.extend(be32(1));
    }
    let payload = level_root(&[entry(11, "Biomes", &int_payload)]);
    assert_eq!(decode_unit(payload, &[]), Err(DecodeError::WrongTagType));
}

#[test]
fn sections_with_wrong_type_code_are_an_error() {
    // A Sections tag stored as a compound instead of a list.
    let payload = level_root(&[entry(10, "Sections", &compound(&[]))]);
    assert_eq!(decode_unit(payload, &[]), Err(DecodeError::WrongTagType));
}

#[test]
fn level_with_wrong_type_code_is_an_error() {
    // A Level tag stored as a byte instead of a compound.
    let payload = compound(&[entry(1, "Level", &[1])]);
    assert_eq!(decode_unit(payload, &[]), Err(DecodeError::WrongTagType));
}

#[test]
fn wrong_tag_shape_is_an_error() {
    // Y present but as a string.
    let section = compound(&[entry(8, "Y", &string_payload("no"))]);
    let payload = level_root(&[entry(9, "Sections", &list(10, &[section]))]);
    assert_eq!(decode_unit(payload, &[]), Err(DecodeError::WrongTagType));
}
