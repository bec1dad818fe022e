//! Tests of the coordinate model: filenames, scaling, neighbor assembly and
//! the world bounding box.

use worldread::region::{get_coords_from_path, get_path_from_coords};
use worldread::region2::{read_region_data, ChunkData};
use worldread::sizes::{block_to_chunk, block_to_region, chunk_pos_in_region, chunk_to_region};
use worldread::types::{Edges, Pair};
use worldread::world::{get_world, read_world_regions, RegionFile};

fn zlib_compress(data: &[u8]) -> Vec<u8> {
    let mut enc = flate2::read::ZlibEncoder::new(data, flate2::Compression::default());
    let mut out = Vec::new();
    std::io::Read::read_to_end(&mut enc, &mut out).unwrap();
    out
}

/// An empty unit: a root compound holding an empty Level compound.
fn empty_unit_root() -> Vec<u8> {
    // Root header (compound, empty name), entry "Level" as an empty
    // compound, End.
    let mut root = vec![10, 0, 0];
    root.extend([10, 0, 5]);
    root.extend(b"Level");
    root.push(0); // Level's payload: just End
    root.push(0); // root compound End
    root
}

/// A container file with empty units at the given slots.
fn region_file_with(slots: &[(usize, usize)]) -> Vec<u8> {
    let mut file = vec![0u8; 4096];
    for (i, (x, z)) in slots.iter().enumerate() {
        let sector = 1 + i;
        let idx = (z * 32 + x) * 4;
        file[idx + 1] = (sector >> 8) as u8;
        file[idx + 2] = sector as u8;
        file[idx + 3] = 1;
        let compressed = zlib_compress(&empty_unit_root());
        let mut blob = ((compressed.len() as u32 + 1).to_be_bytes()).to_vec();
        blob.push(2);
        blob.extend(compressed);
        let at = sector * 4096;
        if file.len() < at + 4096 {
            file.resize(at + 4096, 0);
        }
        file[at..at + blob.len()].copy_from_slice(&blob);
    }
    file
}

#[test]
fn filename_parses_coordinates() {
    assert_eq!(get_coords_from_path("r.1.2.mca"), Some(Pair { x: 1, z: 2 }));
    assert_eq!(
        get_coords_from_path("r.-3.12.mca"),
        Some(Pair { x: -3, z: 12 })
    );
    assert_eq!(get_coords_from_path("r.0.-0.mca"), Some(Pair { x: 0, z: 0 }));
}

#[test]
fn filename_matches_as_a_suffix() {
    // Anything may precede the pattern, as long as the tail fits it.
    assert_eq!(
        get_coords_from_path("old-r.1.2.mca"),
        Some(Pair { x: 1, z: 2 })
    );
    assert_eq!(
        get_coords_from_path("xr.-7.8.mca"),
        Some(Pair { x: -7, z: 8 })
    );
}

#[test]
fn filename_rejects_other_shapes() {
    assert_eq!(get_coords_from_path("level.dat"), None);
    assert_eq!(get_coords_from_path("r.1.2.mcb"), None);
    assert_eq!(get_coords_from_path("r.1.mca"), None);
    assert_eq!(get_coords_from_path("r.1-2.3.mca"), None);
    assert_eq!(get_coords_from_path("r..2.mca"), None);
    assert_eq!(get_coords_from_path("r.1.2.3.mca"), None);
    // Out of 32-bit range.
    assert_eq!(get_coords_from_path("r.2147483648.0.mca"), None);
    assert_eq!(get_coords_from_path("r.0.-2147483649.mca"), None);
}

#[test]
fn filename_roundtrips_through_builder() {
    for (x, z) in [(0i64, 0i64), (1, -1), (-123, 456), (2147483647, -2147483648)] {
        let name = get_path_from_coords(&Pair { x, z });
        let text = String::from_utf8(name).unwrap();
        assert_eq!(get_coords_from_path(&text), Some(Pair { x, z }));
    }
    assert_eq!(
        String::from_utf8(get_path_from_coords(&Pair { x: -3, z: 12 })).unwrap(),
        "r.-3.12.mca"
    );
}

#[test]
fn coordinate_scaling_floors_negatives() {
    assert_eq!(block_to_chunk(0), 0);
    assert_eq!(block_to_chunk(15), 0);
    assert_eq!(block_to_chunk(16), 1);
    assert_eq!(block_to_chunk(-1), -1);
    assert_eq!(block_to_chunk(-16), -1);
    assert_eq!(block_to_chunk(-17), -2);
    assert_eq!(block_to_region(511), 0);
    assert_eq!(block_to_region(512), 1);
    assert_eq!(block_to_region(-1), -1);
    assert_eq!(block_to_region(-512), -1);
    assert_eq!(block_to_region(-513), -2);
    assert_eq!(chunk_to_region(31), 0);
    assert_eq!(chunk_to_region(32), 1);
    assert_eq!(chunk_to_region(-1), -1);
}

#[test]
fn chunk_positions_clamp_to_the_region() {
    assert_eq!(chunk_pos_in_region(5, 0), 5);
    assert_eq!(chunk_pos_in_region(-1, 0), 0);
    assert_eq!(chunk_pos_in_region(40, 0), 31);
    assert_eq!(chunk_pos_in_region(33, 1), 1);
    assert_eq!(chunk_pos_in_region(-33, -2), 31);
}

#[test]
fn edges_queries() {
    let e = Edges { n: -2i64, e: 5, s: 3, w: -4 };
    assert!(e.contains(&Pair { x: 0, z: 0 }));
    assert!(e.contains(&Pair { x: -4, z: -2 }));
    assert!(!e.contains(&Pair { x: 6, z: 0 }));
    assert!(!e.contains(&Pair { x: 0, z: 4 }));
    let size = e.size();
    assert_eq!(size, Pair { x: 10, z: 6 });
    let full = Edges::full(32);
    assert_eq!(full, Edges { n: 0, e: 31, s: 31, w: 0 });
    let zero: Edges<usize> = Default::default();
    assert_eq!(zero, Edges { n: 0, e: 0, s: 0, w: 0 });
}

#[test]
fn absent_east_neighbor_container_yields_all_zero_unit() {
    // A container with a unit at its east edge; no east neighbor file.
    let file = region_file_with(&[(31, 7)]);
    let nfiles = Edges { n: None, e: None, s: None, w: None };
    let reg = read_region_data(&Some(file), &nfiles, &Vec::new())
        .unwrap()
        .unwrap();
    let chunk = reg.get_chunk(&Pair { x: 31, z: 7 });
    assert!(chunk.ndata.e.blocks.iter().all(|b| *b == 0));
    assert!(chunk.ndata.e.lights.iter().all(|l| *l == 0));
    assert!(chunk.ndata.e.biomes.iter().all(|b| *b == 0));
    // The unit itself was decoded: an empty Level gives full sky light.
    assert!(chunk.data.lights.iter().all(|l| *l == 0x0f));
}

#[test]
fn east_neighbor_comes_from_adjacent_container_strip() {
    // The east neighbor container has a unit at its west edge, same row.
    let file = region_file_with(&[(31, 3)]);
    let east = region_file_with(&[(0, 3)]);
    let nfiles = Edges { n: None, e: Some(east), s: None, w: None };
    let reg = read_region_data(&Some(file), &nfiles, &Vec::new())
        .unwrap()
        .unwrap();
    let chunk = reg.get_chunk(&Pair { x: 31, z: 3 });
    // The neighbor was decoded (an empty unit has full sky light), so it is
    // not the all-zero stand-in.
    assert!(chunk.ndata.e.lights.iter().all(|l| *l == 0x0f));
}

#[test]
fn absent_container_file_gives_no_region() {
    let nfiles = Edges { n: None, e: None, s: None, w: None };
    let r = read_region_data(&None, &nfiles, &Vec::new()).unwrap();
    assert!(r.is_none());
}

#[test]
fn world_regions_skip_foreign_files() {
    let files = vec![
        RegionFile { name: b"level.dat".to_vec(), data: vec![] },
        RegionFile {
            name: b"r.0.0.mca".to_vec(),
            data: {
                let mut t = vec![0u8; 4096];
                t[2] = 1;
                t[3] = 1;
                t
            },
        },
    ];
    let regions = read_world_regions(&files, &None).unwrap();
    assert_eq!(regions.len(), 1);
    assert_eq!(regions[0].0, Pair { x: 0, z: 0 });
    assert_eq!(regions[0].1.cedges, Edges { n: 0, e: 0, s: 0, w: 0 });
}

#[test]
fn world_regions_drop_empty_containers() {
    let files = vec![RegionFile { name: b"r.4.5.mca".to_vec(), data: vec![0u8; 4096] }];
    let regions = read_world_regions(&files, &None).unwrap();
    assert!(regions.is_empty());
}

#[test]
fn two_container_world_bounding_box() {
    // Container (0,0) holds units at (0,0) through (1,1); container (1,0)
    // does not exist at all. The occupied block box is exactly 0..=31 on
    // both axes.
    let mut table = vec![0u8; 4096];
    for (x, z) in [(0usize, 0usize), (1, 0), (0, 1), (1, 1)] {
        let idx = (z * 32 + x) * 4;
        table[idx + 2] = 1;
        table[idx + 3] = 1;
    }
    let files = vec![RegionFile { name: b"r.0.0.mca".to_vec(), data: table }];
    let regions = read_world_regions(&files, &None).unwrap();
    assert_eq!(regions.len(), 1);
    assert_eq!(regions[0].1.cedges, Edges { n: 0, e: 1, s: 1, w: 0 });
    let world = get_world(regions, &None, Pair { x: 0, z: 256 }).unwrap();
    assert_eq!(world.redges, Edges { n: 0, e: 0, s: 0, w: 0 });
    assert_eq!(world.cedges, Edges { n: 0, e: 1, s: 1, w: 0 });
    assert_eq!(world.bedges, Edges { n: 0, e: 31, s: 31, w: 0 });
    assert_eq!(world.bsize, Pair { x: 32, z: 32 });
    assert_eq!(world.csize, Pair { x: 2, z: 2 });
    assert_eq!(world.rsize, Pair { x: 1, z: 1 });
}

#[test]
fn world_bounds_intersect_block_limits() {
    let mut table = vec![0u8; 4096];
    for (x, z) in [(0usize, 0usize), (1, 0), (0, 1), (1, 1)] {
        let idx = (z * 32 + x) * 4;
        table[idx + 2] = 1;
    }
    let files = vec![RegionFile { name: b"r.0.0.mca".to_vec(), data: table }];
    let limits = Some(Edges { n: 4i64, e: 100, s: 20, w: 8 });
    let regions = read_world_regions(&files, &limits).unwrap();
    let world = get_world(regions, &limits, Pair { x: 0, z: 256 }).unwrap();
    assert_eq!(world.bedges, Edges { n: 4, e: 31, s: 20, w: 8 });
}

#[test]
fn empty_world_has_no_bounds() {
    assert!(get_world(Vec::new(), &None, Pair { x: 0, z: 256 }).is_none());
}

#[test]
fn disjoint_block_limits_give_no_world() {
    let mut table = vec![0u8; 4096];
    table[2] = 1;
    let files = vec![RegionFile { name: b"r.0.0.mca".to_vec(), data: table }];
    let regions = read_world_regions(&files, &None).unwrap();
    let limits = Some(Edges { n: 10_000i64, e: 10_100, s: 10_050, w: 10_000 });
    assert!(get_world(regions, &limits, Pair { x: 0, z: 256 }).is_none());
}

#[test]
fn synthesized_empty_unit_is_all_zero() {
    let c = ChunkData::new_empty();
    assert_eq!(c.blocks.len(), 65536);
    assert_eq!(c.lights.len(), 65536);
    assert_eq!(c.biomes.len(), 256);
    assert!(c.blocks.iter().all(|b| *b == 0));
    assert!(c.lights.iter().all(|l| *l == 0));
    assert!(c.biomes.iter().all(|b| *b == 0));
}
