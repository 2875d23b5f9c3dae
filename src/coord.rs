use vstd::prelude::*;

use crate::dir::Dir;

verus! {

/// Side length of a chunk, in blocks.
pub const CHUNK_SIZE: usize = 16;

/// Number of blocks in a chunk.
pub const CHUNK_VOLUME: usize = 4096;

/// An integer 3-vector: a block coordinate or a chunk coordinate.
#[derive(Clone, Copy, Debug, PartialEq, Eq, Structural, Hash)]
pub struct Coord {
    pub x: i32,
    pub y: i32,
    pub z: i32,
}

/// A block coordinate relative to the origin of its chunk.
#[derive(Clone, Copy, Debug, PartialEq, Eq, Structural, Hash)]
pub struct LocalCoord {
    pub x: u16,
    pub y: u16,
    pub z: u16,
}

/// The chunk that holds block coordinate `a` along one axis: floor division.
pub open spec fn chunk_axis(a: int) -> int {
    a / (CHUNK_SIZE as int)
}

/// The position of block coordinate `a` inside its chunk along one axis.
pub open spec fn local_axis(a: int) -> int {
    a % (CHUNK_SIZE as int)
}

/// The chunk coordinate of the chunk that holds block `c`.
pub open spec fn chunk_of(c: Coord) -> Coord {
    Coord {
        x: chunk_axis(c.x as int) as i32,
        y: chunk_axis(c.y as int) as i32,
        z: chunk_axis(c.z as int) as i32,
    }
}

/// The local coordinate of block `c` inside the chunk that holds it.
pub open spec fn local_of(c: Coord) -> LocalCoord {
    LocalCoord {
        x: local_axis(c.x as int) as u16,
        y: local_axis(c.y as int) as u16,
        z: local_axis(c.z as int) as u16,
    }
}

/// `c` moved by `(dx, dy, dz)`, where all three sums are `i32` values.
pub open spec fn shifted(c: Coord, dx: int, dy: int, dz: int) -> Option<Coord> {
    let (x, y, z) = (c.x + dx, c.y + dy, c.z + dz);
    if i32::MIN <= x <= i32::MAX && i32::MIN <= y <= i32::MAX && i32::MIN <= z <= i32::MAX {
        Some(Coord { x: x as i32, y: y as i32, z: z as i32 })
    } else {
        None
    }
}

impl LocalCoord {
    /// Every axis lies in `[0, CHUNK_SIZE)`.
    pub open spec fn in_chunk(self) -> bool {
        self.x < CHUNK_SIZE && self.y < CHUNK_SIZE && self.z < CHUNK_SIZE
    }

    /// Position of the cell in a chunk's flat block buffer.
    pub open spec fn flat(self) -> int {
        self.x * 256 + self.y * 16 + self.z
    }

    pub fn new(x: u16, y: u16, z: u16) -> (r: LocalCoord)
        ensures
            r == (LocalCoord { x, y, z }),
    {
        LocalCoord { x, y, z }
    }
}

impl Coord {
    pub fn new(x: i32, y: i32, z: i32) -> (r: Coord)
        ensures
            r == (Coord { x, y, z }),
    {
        Coord { x, y, z }
    }

    /// The neighbouring coordinate one step towards `dir`, or `None` where that
    /// step leaves the range of `i32`.
    pub fn step(self, dir: Dir) -> (r: Option<Coord>)
        ensures
            r == shifted(self, dir.dx(), dir.dy(), dir.dz()),
    {
        let (dx, dy, dz) = dir.offset();
        let x = self.x as i64 + dx as i64;
        let y = self.y as i64 + dy as i64;
        let z = self.z as i64 + dz as i64;
        if i32::MIN as i64 <= x && x <= i32::MAX as i64 && i32::MIN as i64 <= y && y
            <= i32::MAX as i64 && i32::MIN as i64 <= z && z <= i32::MAX as i64 {
            Some(Coord { x: x as i32, y: y as i32, z: z as i32 })
        } else {
            None
        }
    }
}

} // verus!
