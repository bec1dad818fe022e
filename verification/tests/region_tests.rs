//! Tests of the per-aspect container passes: blocks, lights, biomes and the
//! surface height map.

use worldread::error::DecodeError;
use worldread::nbt::TagReader;
use worldread::region::{
    read_chunk_biomes, read_chunk_blocks, read_chunk_heightmaps, read_chunk_lights,
    read_region_chunk_biomes, read_region_data, unpack_heights,
};
use worldread::types::Edges;

fn be16(v: u16) -> Vec<u8> {
    vec![(v >> 8) as u8, v as u8]
}

fn be32(v: u32) -> Vec<u8> {
    vec![(v >> 24) as u8, (v >> 16) as u8, (v >> 8) as u8, v as u8]
}

fn be64(v: u64) -> Vec<u8> {
    let mut out = Vec::new();
    for b in 0..8 {
        out.push((v >> ((7 - b) * 8)) as u8);
    }
    out
}

fn entry(code: u8, name: &str, payload: &[u8]) -> Vec<u8> {
    let mut out = vec![code];
    out.extend(be16(name.len() as u16));
    out.extend(name.as_bytes());
    out.extend(payload);
    out
}

fn compound(entries: &[Vec<u8>]) -> Vec<u8> {
    let mut out = Vec::new();
    for e in entries {
        out.extend(e.iter());
    }
    out.push(0);
    out
}

fn list(ec: u8, elems: &[Vec<u8>]) -> Vec<u8> {
    let mut out = vec![ec];
    out.extend(be32(elems.len() as u32));
    for e in elems {
        out.extend(e.iter());
    }
    out
}

fn byte_array(data: &[u8]) -> Vec<u8> {
    let mut out = be32(data.len() as u32);
    out.extend(data);
    out
}

fn long_array(vals: &[u64]) -> Vec<u8> {
    let mut out = be32(vals.len() as u32);
    for v in vals {
        out.extend(be64(*v));
    }
    out
}

fn string_payload(s: &str) -> Vec<u8> {
    let mut out = be16(s.len() as u16);
    out.extend(s.as_bytes());
    out
}

fn palette_entry(name: &str) -> Vec<u8> {
    compound(&[entry(8, "Name", &string_payload(name))])
}

fn pack_4bit(indices: &[u16]) -> Vec<u64> {
    let mut words = vec![0u64; 256];
    for (i, v) in indices.iter().enumerate() {
        words[i / 16] |= (*v as u64) << ((i % 16) * 4);
    }
    words
}

fn level_root(level_entries: &[Vec<u8>]) -> Vec<u8> {
    compound(&[entry(10, "Level", &compound(level_entries))])
}

/// Pack 256 nine-bit heights the way the format stores them: 36 words read
/// back as one bit buffer, highest column first.
fn pack_heights(heights: &[u16]) -> Vec<u64> {
    assert_eq!(heights.len(), 256);
    let mut bits = vec![false; 36 * 64];
    for (i, h) in heights.iter().enumerate() {
        let start = (255 - i) * 9;
        for b in 0..9 {
            bits[start + b] = (h >> (8 - b)) & 1 == 1;
        }
    }
    // Bit t of the buffer is bit (63 - t % 64) of word (35 - t / 64).
    let mut words = vec![0u64; 36];
    for (t, bit) in bits.iter().enumerate() {
        if *bit {
            words[35 - t / 64] |= 1u64 << (63 - (t % 64));
        }
    }
    words
}

#[test]
fn blocks_pass_decodes_one_section() {
    let reference: Vec<u16> = (0..4096u32).map(|i| (i % 4) as u16).collect();
    let words = pack_4bit(&reference);
    let palette: Vec<Vec<u8>> = (0..16).map(|i| palette_entry(&format!("p{}", i))).collect();
    let names: Vec<Vec<u8>> = (0..16).map(|i| format!("p{}", i).into_bytes()).collect();
    let section = compound(&[
        entry(1, "Y", &[1]),
        entry(9, "Palette", &list(10, &palette)),
        entry(12, "BlockStates", &long_array(&words)),
    ]);
    let payload = level_root(&[entry(9, "Sections", &list(10, &[section]))]);
    let mut r = TagReader::new(payload);
    let blocks = read_chunk_blocks(&mut r, &names).unwrap().unwrap();
    for i in 0..4096 {
        assert_eq!(blocks[4096 + i], reference[i]);
    }
    assert!(blocks[..4096].iter().all(|b| *b == 0));
}

#[test]
fn blocks_pass_skips_unit_without_sections() {
    let payload = level_root(&[entry(1, "Other", &[1])]);
    let mut r = TagReader::new(payload);
    assert_eq!(read_chunk_blocks(&mut r, &Vec::new()).unwrap(), None);
}

#[test]
fn lights_pass_applies_copydown() {
    let bl = vec![0x11u8; 2048];
    let sl = vec![0x22u8; 2048];
    let section = compound(&[
        entry(1, "Y", &[15]),
        entry(7, "BlockLight", &byte_array(&bl)),
        entry(7, "SkyLight", &byte_array(&sl)),
    ]);
    let payload = level_root(&[entry(9, "Sections", &list(10, &[section]))]);
    let mut r = TagReader::new(payload);
    let lights = read_chunk_lights(&mut r).unwrap().unwrap();
    let top_bottom: Vec<u8> = lights[15 * 4096..15 * 4096 + 256].to_vec();
    for y in 0..15 {
        for layer in 0..16 {
            let at = y * 4096 + layer * 256;
            assert_eq!(&lights[at..at + 256], top_bottom.as_slice());
        }
    }
}

#[test]
fn biomes_pass_requires_exact_length() {
    let payload = level_root(&[entry(7, "Biomes", &byte_array(&vec![5u8; 256]))]);
    let mut r = TagReader::new(payload);
    let biomes = read_chunk_biomes(&mut r).unwrap().unwrap();
    assert!(biomes.iter().all(|b| *b == 5));

    let payload = level_root(&[entry(7, "Biomes", &byte_array(&vec![5u8; 255]))]);
    let mut r = TagReader::new(payload);
    let biomes = read_chunk_biomes(&mut r).unwrap().unwrap();
    assert!(biomes.iter().all(|b| *b == 0));
}

#[test]
fn biomes_pass_rejects_wrong_type_code() {
    let payload = level_root(&[entry(8, "Biomes", &string_payload("no"))]);
    let mut r = TagReader::new(payload);
    assert_eq!(read_chunk_biomes(&mut r), Err(DecodeError::WrongTagType));
}

#[test]
fn biomes_pass_skips_unit_without_biomes() {
    let payload = level_root(&[]);
    let mut r = TagReader::new(payload);
    assert_eq!(read_chunk_biomes(&mut r).unwrap(), None);
}

#[test]
fn heightmap_unpacks_nine_bit_columns() {
    let reference: Vec<u16> = (0..256u32).map(|i| ((i * 3 + 64) % 320) as u16).collect();
    let words = pack_heights(&reference);
    let surface = compound(&[entry(12, "WORLD_SURFACE", &long_array(&words))]);
    let payload = level_root(&[entry(10, "Heightmaps", &surface)]);
    let mut r = TagReader::new(payload);
    let heights = read_chunk_heightmaps(&mut r).unwrap().unwrap();
    for i in 0..256 {
        // Values are truncated to a byte, as the consumer stores them.
        assert_eq!(heights[i], (reference[i] % 256) as u8, "column {}", i);
    }
}

#[test]
fn heightmap_needs_thirty_six_words() {
    let words = vec![0u64; 35];
    assert_eq!(unpack_heights(&words), Err(DecodeError::BadHeightArray));
    let ok = unpack_heights(&vec![0u64; 36]).unwrap();
    assert!(ok.iter().all(|h| *h == 0));
}

fn zlib_compress(data: &[u8]) -> Vec<u8> {
    let mut enc = flate2::read::ZlibEncoder::new(data, flate2::Compression::default());
    let mut out = Vec::new();
    std::io::Read::read_to_end(&mut enc, &mut out).unwrap();
    out
}

fn region_file_with(slots: &[((usize, usize), Vec<u8>)]) -> Vec<u8> {
    let mut file = vec![0u8; 4096];
    for (i, ((x, z), payload)) in slots.iter().enumerate() {
        let sector = 1 + i;
        let idx = (z * 32 + x) * 4;
        file[idx + 1] = (sector >> 8) as u8;
        file[idx + 2] = sector as u8;
        file[idx + 3] = 1;
        let mut root = vec![10, 0, 0];
        root.extend(payload.iter());
        let compressed = zlib_compress(&root);
        let mut blob = be32(compressed.len() as u32 + 1);
        blob.push(2);
        blob.extend(compressed);
        let at = sector * 4096;
        if file.len() < at + 4096 {
            file.resize(at + 4096, 0);
        }
        file[at..at + blob.len()].copy_from_slice(&blob);
    }
    file
}

#[test]
fn per_aspect_region_assembles_grids() {
    let biome_bytes = vec![7u8; 256];
    let payload = level_root(&[entry(7, "Biomes", &byte_array(&biome_bytes))]);
    let file = region_file_with(&[((2, 5), payload)]);
    let grids = read_region_data(
        &Some(file.clone()),
        &Edges { n: None, e: None, s: None, w: None },
        &Vec::new(),
    )
    .unwrap();
    assert_eq!(grids.biomes.len(), 1024);
    let slot = grids.biomes[5 * 32 + 2].as_ref().unwrap();
    assert!(slot.iter().all(|b| *b == 7));
    assert!(grids.blocks[5 * 32 + 2].is_none()); // no Sections list
    // The direct biome grid matches.
    let biomes = read_region_chunk_biomes(&Some(file)).unwrap();
    assert_eq!(biomes[5 * 32 + 2].as_ref().unwrap(), &vec![7u8; 256]);
}
