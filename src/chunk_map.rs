use vstd::prelude::*;

use std::collections::HashMap;

use crate::coord::{chunk_axis, chunk_of, local_axis, local_of, shifted, Coord, LocalCoord, CHUNK_SIZE};
use crate::dir::Dir;

verus! {

broadcast use vstd::std_specs::hash::group_hash_axioms;

/// The key under which the chunk at `c` is stored: the three axes side by side.
pub open spec fn key_of(c: Coord) -> u128 {
    (((c.x as u32) as u128) << 64u128) | (((c.y as u32) as u128) << 32u128) | ((c.z as u32) as u128)
}

/// Distinct coordinates have distinct keys.
pub proof fn lemma_key_injective(a: Coord, b: Coord)
    ensures
        key_of(a) == key_of(b) <==> a == b,
{
    let (ax, ay, az, bx, by, bz) = (a.x, a.y, a.z, b.x, b.y, b.z);
    assert(((((ax as u32) as u128) << 64u128) | (((ay as u32) as u128) << 32u128) | ((az as u32) as u128))
        == ((((bx as u32) as u128) << 64u128) | (((by as u32) as u128) << 32u128) | ((bz as u32) as u128))
        ==> ax == bx && ay == by && az == bz) by (bit_vector);
}

/// Floor division of a block coordinate by the chunk size, one axis.
fn chunk_axis_of(a: i32) -> (r: i32)
    ensures
        r == chunk_axis(a as int),
{
    let q = a / 16;
    if a < 0 && a % 16 != 0 {
        q - 1
    } else {
        q
    }
}

/// The position of a block coordinate inside its chunk, one axis.
fn local_axis_of(a: i32) -> (r: u16)
    ensures
        r == local_axis(a as int),
        r < CHUNK_SIZE,
{
    let m = a % 16;
    if m < 0 {
        (CHUNK_SIZE as i32 + m) as u16
    } else {
        m as u16
    }
}

/// The index of every loaded chunk, by chunk coordinate. An absent coordinate
/// is one that has not been generated.
#[derive(Debug)]
pub struct ChunkMap {
    chunks: HashMap<u128, usize>,
}

impl View for ChunkMap {
    type V = Map<Coord, usize>;

    closed spec fn view(&self) -> Map<Coord, usize> {
        Map::new(|c: Coord| self.chunks@.contains_key(key_of(c)), |c: Coord| self.chunks@[key_of(c)])
    }
}

impl ChunkMap {
    pub fn new() -> (r: ChunkMap)
        ensures
            r@ == Map::<Coord, usize>::empty(),
    {
        let r = ChunkMap { chunks: HashMap::new() };
        assert(r@ =~= Map::<Coord, usize>::empty());
        r
    }

    /// The chunk stored at chunk coordinate `pos`.
    pub fn get_chunk(&self, pos: Coord) -> (r: Option<usize>)
        ensures
            r.is_some() == self@.contains_key(pos),
            r.is_some() ==> r.unwrap() == self@[pos],
    {
        match self.chunks.get(&Self::key(pos)) {
            Some(h) => Some(*h),
            None => None,
        }
    }

    /// The chunk that holds block coordinate `coords`.
    pub fn get_chunk_from_coords(&self, coords: Coord) -> (r: Option<usize>)
        ensures
            r.is_some() == self@.contains_key(chunk_of(coords)),
            r.is_some() ==> r.unwrap() == self@[chunk_of(coords)],
    {
        self.get_chunk(Self::coords_to_chunk_coords(coords))
    }

    /// The chunk stored next to `pos` towards `dir`.
    pub fn neighbour(&self, pos: Coord, dir: Dir) -> (r: Option<usize>)
        ensures
            r == match shifted(pos, dir.dx(), dir.dy(), dir.dz()) {
                Some(q) => if self@.contains_key(q) {
                    Some(self@[q])
                } else {
                    None
                },
                None => None,
            },
    {
        match pos.step(dir) {
            Some(q) => self.get_chunk(q),
            None => None,
        }
    }

    /// Stores `chunk` at `pos`, replacing what was there.
    pub fn set_chunk(&mut self, pos: Coord, chunk: usize)
        ensures
            final(self)@ == old(self)@.insert(pos, chunk),
    {
        self.chunks.insert(Self::key(pos), chunk);
        proof {
            assert forall|c: Coord| true implies (key_of(c) == key_of(pos)) == (c == pos) by {
                lemma_key_injective(c, pos);
            }
        }
        assert(self@ =~= old(self)@.insert(pos, chunk));
    }

    /// Forgets the chunk at `pos`, if any.
    pub fn remove_chunk(&mut self, pos: Coord)
        ensures
            final(self)@ == old(self)@.remove(pos),
    {
        self.chunks.remove(&Self::key(pos));
        proof {
            assert forall|c: Coord| true implies (key_of(c) == key_of(pos)) == (c == pos) by {
                lemma_key_injective(c, pos);
            }
        }
        assert(self@ =~= old(self)@.remove(pos));
    }

    fn key(c: Coord) -> (r: u128)
        ensures
            r == key_of(c),
    {
        (((c.x as u32) as u128) << 64u128) | (((c.y as u32) as u128) << 32u128) | ((c.z as u32) as u128)
    }

    /// The chunk coordinate of the chunk that holds block `coords`: floor
    /// division by the chunk size on each axis.
    pub fn coords_to_chunk_coords(coords: Coord) -> (r: Coord)
        ensures
            r == chunk_of(coords),
    {
        Coord { x: chunk_axis_of(coords.x), y: chunk_axis_of(coords.y), z: chunk_axis_of(coords.z) }
    }

    /// Splits block coordinate `coords` into the chunk that holds it and its
    /// position inside that chunk, for negative coordinates too.
    pub fn coords_to_chunk_coords_and_block(coords: Coord) -> (r: (Coord, LocalCoord))
        ensures
            r.0 == chunk_of(coords),
            r.1 == local_of(coords),
            r.1.in_chunk(),
            r.0.x * CHUNK_SIZE + r.1.x == coords.x,
            r.0.y * CHUNK_SIZE + r.1.y == coords.y,
            r.0.z * CHUNK_SIZE + r.1.z == coords.z,
    {
        let chunk_coords = Self::coords_to_chunk_coords(coords);
        let block_coord = LocalCoord {
            x: local_axis_of(coords.x),
            y: local_axis_of(coords.y),
            z: local_axis_of(coords.z),
        };
        (chunk_coords, block_coord)
    }
}

} // verus!
