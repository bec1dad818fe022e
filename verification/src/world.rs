//! The world-level coordinate model: which containers a world holds, the
//! occupied chunk extents of each, and the tight bounding box of the whole
//! world in region, chunk and block coordinates, optionally intersected with
//! caller-supplied block limits.

use vstd::prelude::*;

use crate::container::occupied_upto;
use crate::error::DecodeError;
use crate::region::{get_coords_from_bytes, region_name_coords};
use crate::sizes::{block_to_chunk, block_to_region, chunk_pos_in_region, clamped_chunk_pos};
use crate::types::{Edges, Pair};

verus! {

/// One container file of a world: its filename and its bytes.
pub struct RegionFile {
    pub name: Vec<u8>,
    pub data: Vec<u8>,
}

/// The occupied chunk extents of one container, in in-container positions.
#[derive(Clone, Copy, PartialEq, Eq, Structural)]
pub struct Region {
    pub cedges: Edges<usize>,
}

/// A region key and summary fit for world arithmetic: coordinates within
/// 32-bit range, extents within the 32-slot grid.
pub open spec fn entry_wf(e: (Pair<i64>, Region)) -> bool {
    &&& -0x8000_0000 <= e.0.x <= 0x7fff_ffff
    &&& -0x8000_0000 <= e.0.z <= 0x7fff_ffff
    &&& e.1.cedges.n <= 31 && e.1.cedges.e <= 31 && e.1.cedges.s <= 31 && e.1.cedges.w <= 31
}

/// The region limits the optional block limits imply.
pub open spec fn rlimits_of(blimits: Option<Edges<i64>>) -> Option<Edges<int>> {
    match blimits {
        None => None,
        Some(bl) => Some(
            Edges { n: bl.z_min_region(), e: bl.x_max_region(), s: bl.z_max_region(), w: bl.x_min_region() },
        ),
    }
}

/// The in-container chunk bounds the optional block limits imply for the
/// container at `r`.
pub open spec fn rclimits_of(blimits: Option<Edges<i64>>, r: Pair<i64>) -> Option<Edges<usize>> {
    match blimits {
        None => None,
        Some(bl) => Some(
            Edges {
                n: clamped_chunk_pos(bl.n as int / 16, r.z as int) as usize,
                e: clamped_chunk_pos(bl.e as int / 16, r.x as int) as usize,
                s: clamped_chunk_pos(bl.s as int / 16, r.z as int) as usize,
                w: clamped_chunk_pos(bl.w as int / 16, r.x as int) as usize,
            },
        ),
    }
}

impl Edges<i64> {
    /// The region coordinate of the north block limit.
    pub open spec fn z_min_region(self) -> int {
        self.n as int / 512
    }

    /// The region coordinate of the south block limit.
    pub open spec fn z_max_region(self) -> int {
        self.s as int / 512
    }

    /// The region coordinate of the west block limit.
    pub open spec fn x_min_region(self) -> int {
        self.w as int / 512
    }

    /// The region coordinate of the east block limit.
    pub open spec fn x_max_region(self) -> int {
        self.e as int / 512
    }
}

/// The occupied chunk extents of a nonempty coordinate list: the minimum
/// and maximum of each axis.
pub open spec fn cedges_fold(s: Seq<Pair<usize>>) -> Edges<usize>
    decreases s.len(),
{
    if s.len() <= 1 {
        Edges { n: s[0].z, e: s[0].x, s: s[0].z, w: s[0].x }
    } else {
        let p = cedges_fold(s.drop_last());
        let q = s.last();
        Edges {
            n: if q.z < p.n {
                q.z
            } else {
                p.n
            },
            e: if q.x > p.e {
                q.x
            } else {
                p.e
            },
            s: if q.z > p.s {
                q.z
            } else {
                p.s
            },
            w: if q.x < p.w {
                q.x
            } else {
                p.w
            },
        }
    }
}

/// The regions of a world: each file whose name is a container filename
/// within the optional region limits, with its occupied chunk extents;
/// files with no occupied slot are left out. `None` when some such file is
/// shorter than its location table.
pub open spec fn world_regions(files: Seq<RegionFile>, blimits: Option<Edges<i64>>) -> Option<
    Seq<(Pair<i64>, Region)>,
>
    decreases files.len(),
{
    if files.len() == 0 {
        Some(Seq::empty())
    } else {
        match world_regions(files.drop_last(), blimits) {
            None => None,
            Some(rest) => {
                let f = files.last();
                match region_name_coords(f.name@) {
                    None => Some(rest),
                    Some(xz) => {
                        let inside = match rlimits_of(blimits) {
                            None => true,
                            Some(rl) => rl.w <= xz.0 <= rl.e && rl.n <= xz.1 <= rl.s,
                        };
                        if !inside {
                            Some(rest)
                        } else if f.data@.len() < 4096 {
                            None
                        } else {
                            let coords = occupied_upto(
                                f.data@,
                                rclimits_of(blimits, Pair { x: xz.0 as i64, z: xz.1 as i64 }),
                                1024,
                            );
                            if coords.len() > 0 {
                                Some(
                                    rest.push(
                                        (
                                            Pair { x: xz.0 as i64, z: xz.1 as i64 },
                                            Region { cedges: cedges_fold(coords) },
                                        ),
                                    ),
                                )
                            } else {
                                Some(rest)
                            }
                        }
                    },
                }
            },
        }
    }
}

/// Once a prefix of the file list fails, the whole list fails.
proof fn lemma_world_regions_none_extends(files: Seq<RegionFile>, blimits: Option<Edges<i64>>, j: int)
    requires
        0 <= j <= files.len(),
        world_regions(files.take(j), blimits) is None,
    ensures
        world_regions(files, blimits) is None,
    decreases files.len() - j,
{
    if j == files.len() {
        assert(files.take(j) =~= files);
    } else {
        assert(files.take(j + 1).drop_last() =~= files.take(j));
        lemma_world_regions_none_extends(files, blimits, j + 1);
    }
}

/// Scan a world's container files: parse each filename, keep the files the
/// optional block limits reach, read each location table restricted to the
/// limits, and record the occupied chunk extents of every container that
/// has an occupied slot.
pub fn read_world_regions(files: &Vec<RegionFile>, blimits: &Option<Edges<i64>>) -> (r: Result<
    Vec<(Pair<i64>, Region)>,
    DecodeError,
>)
    ensures
        match r {
            Ok(regions) => world_regions(files@, *blimits) == Some(regions@) && forall|i: int|
                0 <= i < regions@.len() ==> entry_wf(#[trigger] regions@[i]),
            Err(_) => world_regions(files@, *blimits) is None,
        },
{
    let mut out: Vec<(Pair<i64>, Region)> = Vec::new();
    let n = files.len();
    let mut i: usize = 0;
    proof {
        assert(files@.take(0) =~= Seq::<RegionFile>::empty());
    }
    while i < n
        invariant
            i <= n,
            n == files@.len(),
            world_regions(files@.take(i as int), *blimits) == Some(out@),
            forall|k: int| 0 <= k < out@.len() ==> entry_wf(#[trigger] out@[k]),
        decreases n - i,
    {
        let f = &files[i];
        proof {
            assert(files@.take(i + 1).drop_last() =~= files@.take(i as int));
            assert(files@.take(i + 1).last() == files@[i as int]);
        }
        let coords = get_coords_from_bytes(&f.name);
        match coords {
            None => {},
            Some(rc) => {
                let inside = match blimits {
                    None => true,
                    Some(bl) => {
                        let rl = Edges {
                            n: block_to_region(bl.n),
                            e: block_to_region(bl.e),
                            s: block_to_region(bl.s),
                            w: block_to_region(bl.w),
                        };
                        rl.contains(&rc)
                    },
                };
                if inside {
                    let rcl: Option<Edges<usize>> = match blimits {
                        None => None,
                        Some(bl) => Some(
                            Edges {
                                n: chunk_pos_in_region(block_to_chunk(bl.n), rc.z),
                                e: chunk_pos_in_region(block_to_chunk(bl.e), rc.x),
                                s: chunk_pos_in_region(block_to_chunk(bl.s), rc.z),
                                w: chunk_pos_in_region(block_to_chunk(bl.w), rc.x),
                            },
                        ),
                    };
                    proof {
                        assert(rcl == rclimits_of(*blimits, rc));
                    }
                    let chunklist = match crate::container::read_region_chunk_coords(
                        &f.data,
                        &rcl,
                    ) {
                        Ok(cl) => cl,
                        Err(e) => {
                            proof {
                                lemma_world_regions_none_extends(files@, *blimits, i + 1);
                            }
                            return Err(e);
                        },
                    };
                    if chunklist.len() > 0 {
                        proof {
                            crate::container::lemma_occupied_upto_bounds(
                                f.data@,
                                rclimits_of(*blimits, rc),
                                1024,
                            );
                        }
                        let ce = fold_cedges(&chunklist);
                        out.push((rc, Region { cedges: ce }));
                    }
                }
            },
        }
        i = i + 1;
    }
    proof {
        assert(files@.take(n as int) =~= files@);
    }
    Ok(out)
}

/// The minimum and maximum occupied position on each axis.
fn fold_cedges(coords: &Vec<Pair<usize>>) -> (r: Edges<usize>)
    requires
        coords@.len() > 0,
        forall|i: int|
            0 <= i < coords@.len() ==> (#[trigger] coords@[i]).x < 32 && coords@[i].z < 32,
    ensures
        r == cedges_fold(coords@),
        r.n <= 31 && r.e <= 31 && r.s <= 31 && r.w <= 31,
    decreases coords@.len(),
{
    let first = coords[0];
    let mut r = Edges { n: first.z, e: first.x, s: first.z, w: first.x };
    let n = coords.len();
    let mut i: usize = 1;
    proof {
        assert(coords@.take(1).len() == 1);
        assert(coords@.take(1)[0] == coords@[0]);
    }
    while i < n
        invariant
            1 <= i <= n,
            n == coords@.len(),
            forall|k: int|
                0 <= k < coords@.len() ==> (#[trigger] coords@[k]).x < 32 && coords@[k].z < 32,
            r == cedges_fold(coords@.take(i as int)),
            r.n <= 31 && r.e <= 31 && r.s <= 31 && r.w <= 31,
        decreases n - i,
    {
        let q = coords[i];
        proof {
            assert(coords@.take(i + 1).drop_last() =~= coords@.take(i as int));
            assert(coords@.take(i + 1).last() == coords@[i as int]);
            assert(coords@.take(i + 1).len() == i + 1 >= 2);
        }
        r = Edges {
            n: if q.z < r.n {
                q.z
            } else {
                r.n
            },
            e: if q.x > r.e {
                q.x
            } else {
                r.e
            },
            s: if q.z > r.s {
                q.z
            } else {
                r.s
            },
            w: if q.x < r.w {
                q.x
            } else {
                r.w
            },
        };
        i = i + 1;
    }
    proof {
        assert(coords@.take(n as int) =~= coords@);
    }
    r
}


/// The minimum and maximum region coordinates of a nonempty region list.
pub open spec fn redges_fold(s: Seq<(Pair<i64>, Region)>) -> Edges<int>
    decreases s.len(),
{
    if s.len() <= 1 {
        Edges { n: s[0].0.z as int, e: s[0].0.x as int, s: s[0].0.z as int, w: s[0].0.x as int }
    } else {
        let p = redges_fold(s.drop_last());
        let q = s.last().0;
        Edges {
            n: if q.z < p.n {
                q.z as int
            } else {
                p.n
            },
            e: if q.x > p.e {
                q.x as int
            } else {
                p.e
            },
            s: if q.z > p.s {
                q.z as int
            } else {
                p.s
            },
            w: if q.x < p.w {
                q.x as int
            } else {
                p.w
            },
        }
    }
}

/// The global chunk extents: over the regions on each extreme edge, the
/// extreme occupied chunk coordinate, folded from sentinel bounds.
pub open spec fn cedges_acc(s: Seq<(Pair<i64>, Region)>, re: Edges<int>) -> Edges<int>
    decreases s.len(),
{
    if s.len() == 0 {
        Edges {
            n: 0x7fff_ffff_ffff_ffff as int,
            e: -0x8000_0000_0000_0000 as int,
            s: -0x8000_0000_0000_0000 as int,
            w: 0x7fff_ffff_ffff_ffff as int,
        }
    } else {
        let p = cedges_acc(s.drop_last(), re);
        let (q, reg) = s.last();
        Edges {
            n: if q.z == re.n && q.z * 32 + reg.cedges.n < p.n {
                q.z * 32 + reg.cedges.n
            } else {
                p.n
            },
            e: if q.x == re.e && q.x * 32 + reg.cedges.e > p.e {
                q.x * 32 + reg.cedges.e
            } else {
                p.e
            },
            s: if q.z == re.s && q.z * 32 + reg.cedges.s > p.s {
                q.z * 32 + reg.cedges.s
            } else {
                p.s
            },
            w: if q.x == re.w && q.x * 32 + reg.cedges.w < p.w {
                q.x * 32 + reg.cedges.w
            } else {
                p.w
            },
        }
    }
}

/// The world's bounding boxes: region, chunk and block extents, the last
/// intersected with the optional block limits. `None` for an empty region
/// list, for chunk extents no region attained (which cannot happen for
/// extents folded from the same list), or for block limits that exclude the
/// whole world.
pub open spec fn world_bounds(s: Seq<(Pair<i64>, Region)>, blimits: Option<Edges<i64>>) -> Option<
    (Edges<int>, Edges<int>, Edges<int>),
> {
    if s.len() == 0 {
        None
    } else {
        let re = redges_fold(s);
        let ce = cedges_acc(s, re);
        if !(re.n <= re.s && re.w <= re.e) || ce.n == 0x7fff_ffff_ffff_ffff as int || ce.e
            == -0x8000_0000_0000_0000 as int || ce.s == -0x8000_0000_0000_0000 as int || ce.w
            == 0x7fff_ffff_ffff_ffff as int || !(ce.n <= ce.s && ce.w <= ce.e) {
            None
        } else {
            let cb = Edges {
                n: ce.n * 16,
                e: ce.e * 16 + 15,
                s: ce.s * 16 + 15,
                w: ce.w * 16,
            };
            let be = match blimits {
                None => cb,
                Some(bl) => Edges {
                    n: if cb.n >= bl.n {
                        cb.n
                    } else {
                        bl.n as int
                    },
                    e: if cb.e <= bl.e {
                        cb.e
                    } else {
                        bl.e as int
                    },
                    s: if cb.s <= bl.s {
                        cb.s
                    } else {
                        bl.s as int
                    },
                    w: if cb.w >= bl.w {
                        cb.w
                    } else {
                        bl.w as int
                    },
                },
            };
            if be.n <= be.s && be.w <= be.e {
                Some((re, ce, be))
            } else {
                None
            }
        }
    }
}

/// A world ready for consumers: its regions, its extents in region, chunk
/// and block coordinates, the size of each extent, and the vertical block
/// range a consumer asked for.
pub struct World {
    pub regions: Vec<(Pair<i64>, Region)>,
    pub redges: Edges<i64>,
    pub cedges: Edges<i64>,
    pub bedges: Edges<i64>,
    pub rsize: Pair<u64>,
    pub csize: Pair<u64>,
    pub bsize: Pair<u64>,
    pub ylimits: Pair<usize>,
}

/// The edges as mathematical integers.
pub open spec fn edges_int(e: Edges<i64>) -> Edges<int> {
    Edges { n: e.n as int, e: e.e as int, s: e.s as int, w: e.w as int }
}

/// Assemble a world from its region summaries: compute the region, chunk
/// and block extents (the block extents intersected with the optional block
/// limits) and their sizes. `None` when there is no data: an empty region
/// list, or block limits that exclude every occupied block. `ylimits` is
/// the inclusive-exclusive vertical block range consumers asked for.
pub fn get_world(
    regions: Vec<(Pair<i64>, Region)>,
    blimits: &Option<Edges<i64>>,
    ylimits: Pair<usize>,
) -> (r: Option<World>)
    requires
        forall|i: int| 0 <= i < regions@.len() ==> entry_wf(#[trigger] regions@[i]),
    ensures
        match r {
            Some(world) => {
                &&& world_bounds(regions@, *blimits) == Some(
                    (edges_int(world.redges), edges_int(world.cedges), edges_int(world.bedges)),
                )
                &&& world.regions == regions
                &&& world.ylimits == ylimits
                &&& world.rsize.x == world.redges.e - world.redges.w + 1
                &&& world.rsize.z == world.redges.s - world.redges.n + 1
                &&& world.csize.x == world.cedges.e - world.cedges.w + 1
                &&& world.csize.z == world.cedges.s - world.cedges.n + 1
                &&& world.bsize.x == world.bedges.e - world.bedges.w + 1
                &&& world.bsize.z == world.bedges.s - world.bedges.n + 1
            },
            None => world_bounds(regions@, *blimits) is None,
        },
{
    let n = regions.len();
    if n == 0 {
        return None;
    }
    let first = regions[0].0;
    let mut re = Edges { n: first.z, e: first.x, s: first.z, w: first.x };
    let mut i: usize = 1;
    proof {
        assert(regions@.take(1).len() == 1);
        assert(regions@.take(1)[0] == regions@[0]);
    }
    while i < n
        invariant
            1 <= i <= n,
            n == regions@.len(),
            forall|k: int| 0 <= k < regions@.len() ==> entry_wf(#[trigger] regions@[k]),
            edges_int(re) == redges_fold(regions@.take(i as int)),
            -0x8000_0000 <= re.n <= 0x7fff_ffff,
            -0x8000_0000 <= re.e <= 0x7fff_ffff,
            -0x8000_0000 <= re.s <= 0x7fff_ffff,
            -0x8000_0000 <= re.w <= 0x7fff_ffff,
        decreases n - i,
    {
        let q = regions[i].0;
        proof {
            assert(regions@.take(i + 1).drop_last() =~= regions@.take(i as int));
            assert(regions@.take(i + 1).last() == regions@[i as int]);
            assert(regions@.take(i + 1).len() == i + 1 >= 2);
        }
        re = Edges {
            n: if q.z < re.n {
                q.z
            } else {
                re.n
            },
            e: if q.x > re.e {
                q.x
            } else {
                re.e
            },
            s: if q.z > re.s {
                q.z
            } else {
                re.s
            },
            w: if q.x < re.w {
                q.x
            } else {
                re.w
            },
        };
        i = i + 1;
    }
    proof {
        assert(regions@.take(n as int) =~= regions@);
    }
    let mut ce = Edges {
        n: 0x7fff_ffff_ffff_ffffi64,
        e: -0x8000_0000_0000_0000i64,
        s: -0x8000_0000_0000_0000i64,
        w: 0x7fff_ffff_ffff_ffffi64,
    };
    let mut j: usize = 0;
    proof {
        assert(regions@.take(0) =~= Seq::<(Pair<i64>, Region)>::empty());
    }
    while j < n
        invariant
            j <= n,
            n == regions@.len(),
            forall|k: int| 0 <= k < regions@.len() ==> entry_wf(#[trigger] regions@[k]),
            edges_int(ce) == cedges_acc(regions@.take(j as int), edges_int(re)),
            -0x8000_0000 <= re.n <= 0x7fff_ffff,
            -0x8000_0000 <= re.e <= 0x7fff_ffff,
            -0x8000_0000 <= re.s <= 0x7fff_ffff,
            -0x8000_0000 <= re.w <= 0x7fff_ffff,
            ce.n == 0x7fff_ffff_ffff_ffffi64 || -0x8000_0000_0000 <= ce.n <= 0x8000_0000_0000,
            ce.e == -0x8000_0000_0000_0000i64 || -0x8000_0000_0000 <= ce.e <= 0x8000_0000_0000,
            ce.s == -0x8000_0000_0000_0000i64 || -0x8000_0000_0000 <= ce.s <= 0x8000_0000_0000,
            ce.w == 0x7fff_ffff_ffff_ffffi64 || -0x8000_0000_0000 <= ce.w <= 0x8000_0000_0000,
        decreases n - j,
    {
        let (q, reg) = regions[j];
        proof {
            assert(regions@.take(j + 1).drop_last() =~= regions@.take(j as int));
            assert(regions@.take(j + 1).last() == regions@[j as int]);
        }
        let cand_n = q.z * 32 + (reg.cedges.n as i64);
        let cand_e = q.x * 32 + (reg.cedges.e as i64);
        let cand_s = q.z * 32 + (reg.cedges.s as i64);
        let cand_w = q.x * 32 + (reg.cedges.w as i64);
        ce = Edges {
            n: if q.z == re.n && cand_n < ce.n {
                cand_n
            } else {
                ce.n
            },
            e: if q.x == re.e && cand_e > ce.e {
                cand_e
            } else {
                ce.e
            },
            s: if q.z == re.s && cand_s > ce.s {
                cand_s
            } else {
                ce.s
            },
            w: if q.x == re.w && cand_w < ce.w {
                cand_w
            } else {
                ce.w
            },
        };
        j = j + 1;
    }
    if ce.n == 0x7fff_ffff_ffff_ffffi64 || ce.e == -0x8000_0000_0000_0000i64 || ce.s
        == -0x8000_0000_0000_0000i64 || ce.w == 0x7fff_ffff_ffff_ffffi64 {
        return None;
    }
    if !(re.n <= re.s && re.w <= re.e) || !(ce.n <= ce.s && ce.w <= ce.e) {
        return None;
    }
    let cb = Edges { n: ce.n * 16, e: ce.e * 16 + 15, s: ce.s * 16 + 15, w: ce.w * 16 };
    let be = match blimits {
        None => cb,
        Some(bl) => Edges {
            n: if cb.n >= bl.n {
                cb.n
            } else {
                bl.n
            },
            e: if cb.e <= bl.e {
                cb.e
            } else {
                bl.e
            },
            s: if cb.s <= bl.s {
                cb.s
            } else {
                bl.s
            },
            w: if cb.w >= bl.w {
                cb.w
            } else {
                bl.w
            },
        },
    };
    if !(be.n <= be.s && be.w <= be.e) {
        return None;
    }
    let rsize = re.size();
    let csize = ce.size();
    let bsize = be.size();
    Some(
        World {
            regions,
            redges: re,
            cedges: ce,
            bedges: be,
            rsize,
            csize,
            bsize,
            ylimits,
        },
    )
}

} // verus!
