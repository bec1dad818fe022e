//! Coordinate pairs and four-sided edge extents.
//!
//! `Pair` is a small value-type key for (x, z) positions. `Edges` gives the
//! extents of a rectangle in any coordinate space: `n`/`s` bound the z axis,
//! `w`/`e` bound the x axis, all inclusive.

use vstd::prelude::*;

verus! {

/// An (x, z) coordinate pair.
#[derive(Clone, Copy, Debug, PartialEq, Eq, Hash, Structural)]
pub struct Pair<T> {
    pub x: T,
    pub z: T,
}

/// Inclusive extents of a rectangle: north and south bound z, west and east
/// bound x.
#[derive(Clone, Copy, Debug, PartialEq, Eq, Structural)]
pub struct Edges<T> {
    pub n: T,
    pub e: T,
    pub s: T,
    pub w: T,
}

impl Edges<i64> {
    /// True when the point lies within the extents on both axes.
    pub fn contains(&self, point: &Pair<i64>) -> (r: bool)
        ensures
            r == (self.w <= point.x <= self.e && self.n <= point.z <= self.s),
    {
        point.x >= self.w && point.x <= self.e && point.z >= self.n && point.z <= self.s
    }

    /// The number of positions covered on each axis.
    pub fn size(&self) -> (r: Pair<u64>)
        requires
            self.w <= self.e,
            self.n <= self.s,
            self.e - self.w + 1 <= u64::MAX,
            self.s - self.n + 1 <= u64::MAX,
        ensures
            r.x == self.e - self.w + 1,
            r.z == self.s - self.n + 1,
    {
        let dx: u64 = (self.e as i128 - self.w as i128) as u64;
        let dz: u64 = (self.s as i128 - self.n as i128) as u64;
        Pair { x: dx + 1, z: dz + 1 }
    }
}

impl Edges<usize> {
    /// True when the point lies within the extents on both axes.
    pub fn contains(&self, point: &Pair<usize>) -> (r: bool)
        ensures
            r == (self.w <= point.x <= self.e && self.n <= point.z <= self.s),
    {
        point.x >= self.w && point.x <= self.e && point.z >= self.n && point.z <= self.s
    }

    /// The extents covering all of a square of the given side length.
    pub fn full(size: usize) -> (r: Edges<usize>)
        requires
            size >= 1,
        ensures
            r.n == 0 && r.w == 0,
            r.e == size - 1 && r.s == size - 1,
    {
        Edges { n: 0, e: size - 1, s: size - 1, w: 0 }
    }
}

impl Default for Edges<usize> {
    /// Zero margins on all four sides.
    fn default() -> (r: Self)
        ensures
            r.n == 0 && r.e == 0 && r.s == 0 && r.w == 0,
    {
        Edges { n: 0, e: 0, s: 0, w: 0 }
    }
}

} // verus!
