use vstd::prelude::*;

use crate::blocks::Block;
use crate::chunk::{edited, Chunk};
use crate::chunk_map::ChunkMap;
use crate::coord::{chunk_of, local_of, shifted, Coord, LocalCoord};
use crate::dir::Dir;
use crate::mesh::owned;
use crate::neighbours::Neighbours;

verus! {

/// Every chunk sits at its own coordinate and is well formed.
pub open spec fn chunks_wf(m: Map<Coord, Chunk>) -> bool {
    forall|c: Coord| #[trigger] m.contains_key(c) ==> m[c].position == c && m[c].wf()
}

/// The loaded chunks: an arena of slots, and the chunk map from chunk
/// coordinate to slot. A slot is freed only when its chunk is removed.
pub struct World {
    map: ChunkMap,
    slots: Vec<Option<Chunk>>,
}

impl World {
    /// The loaded chunks, by chunk coordinate.
    pub closed spec fn chunks(&self) -> Map<Coord, Chunk> {
        Map::new(
            |c: Coord| self.map@.contains_key(c),
            |c: Coord| self.slots@[self.map@[c] as int].unwrap(),
        )
    }

    /// The map and the arena agree: each mapped coordinate names a filled slot
    /// whose chunk sits there, and each filled slot is mapped from its chunk's
    /// coordinate.
    closed spec fn arena_wf(&self) -> bool {
        &&& forall|c: Coord| #[trigger]
            self.map@.contains_key(c) ==> {
                &&& self.map@[c] < self.slots@.len()
                &&& self.slots@[self.map@[c] as int].is_some()
                &&& self.slots@[self.map@[c] as int].unwrap().position == c
                &&& self.slots@[self.map@[c] as int].unwrap().wf()
            }
        &&& forall|h: int|
            0 <= h < self.slots@.len() && (#[trigger] self.slots@[h]).is_some() ==> {
                &&& self.map@.contains_key(self.slots@[h].unwrap().position)
                &&& self.map@[self.slots@[h].unwrap().position] == h
            }
    }

    pub closed spec fn wf(&self) -> bool {
        &&& self.arena_wf()
        &&& chunks_wf(self.chunks())
    }

    proof fn lemma_chunks_wf(&self)
        requires
            self.arena_wf(),
        ensures
            chunks_wf(self.chunks()),
    {
    }

    /// A well-formed world holds only well-formed chunks at their own coordinates.
    pub proof fn lemma_wf(&self)
        requires
            self.wf(),
        ensures
            chunks_wf(self.chunks()),
    {
    }

    pub fn new() -> (r: World)
        ensures
            r.wf(),
            r.chunks() == Map::<Coord, Chunk>::empty(),
    {
        let r = World { map: ChunkMap::new(), slots: Vec::new() };
        assert(r.chunks() =~= Map::<Coord, Chunk>::empty());
        r
    }

    /// The chunk at chunk coordinate `pos`, if loaded.
    pub fn get_chunk(&self, pos: Coord) -> (r: Option<&Chunk>)
        requires
            self.wf(),
        ensures
            r.is_some() == self.chunks().contains_key(pos),
            r.is_some() ==> *r.unwrap() == self.chunks()[pos],
    {
        match self.map.get_chunk(pos) {
            Some(h) => self.slots[h].as_ref(),
            None => None,
        }
    }

    /// Stores `chunk` at its own coordinate; a chunk already there is dropped.
    pub fn insert_chunk(&mut self, chunk: Chunk)
        requires
            old(self).wf(),
            chunk.wf(),
        ensures
            final(self).wf(),
            final(self).chunks() == old(self).chunks().insert(chunk.position, chunk),
    {
        let pos = chunk.position;
        let ghost ch = chunk;
        match self.map.get_chunk(pos) {
            Some(h) => {
                self.slots.set(h, Some(chunk));
            },
            None => {
                let h = self.slots.len();
                self.slots.push(Some(chunk));
                self.map.set_chunk(pos, h);
            },
        }
        assert(self.chunks() =~= old(self).chunks().insert(pos, ch));
        proof {
            self.lemma_chunks_wf();
        }
    }

    /// Drops the chunk at `pos`, if any.
    pub fn remove_chunk(&mut self, pos: Coord)
        requires
            old(self).wf(),
        ensures
            final(self).wf(),
            final(self).chunks() == old(self).chunks().remove(pos),
    {
        match self.map.get_chunk(pos) {
            Some(h) => {
                self.slots.set(h, None);
                self.map.remove_chunk(pos);
            },
            None => {},
        }
        assert(self.chunks() =~= old(self).chunks().remove(pos));
        proof {
            self.lemma_chunks_wf();
        }
    }
}

/// The block at block coordinate `coords`, or `None` where its chunk is not loaded.
pub open spec fn block_in(m: Map<Coord, Chunk>, coords: Coord) -> Option<Block> {
    if m.contains_key(chunk_of(coords)) {
        Some(m[chunk_of(coords)].block_at(local_of(coords)))
    } else {
        None
    }
}

/// The loaded chunk next to `pos` towards `d`.
pub open spec fn neighbour_in(m: Map<Coord, Chunk>, pos: Coord, d: Dir) -> Option<Chunk> {
    match shifted(pos, d.dx(), d.dy(), d.dz()) {
        Some(q) => if m.contains_key(q) {
            Some(m[q])
        } else {
            None
        },
        None => None,
    }
}

/// The loaded chunks next to `pos`, one per direction.
pub open spec fn neighbours_in(m: Map<Coord, Chunk>, pos: Coord) -> Neighbours<Chunk> {
    Neighbours {
        north: neighbour_in(m, pos, Dir::North),
        south: neighbour_in(m, pos, Dir::South),
        west: neighbour_in(m, pos, Dir::West),
        east: neighbour_in(m, pos, Dir::East),
        up: neighbour_in(m, pos, Dir::Up),
        down: neighbour_in(m, pos, Dir::Down),
    }
}

/// `after` differs from `before` at most in the chunk at `pos`.
pub open spec fn same_but(before: Map<Coord, Chunk>, after: Map<Coord, Chunk>, pos: Coord) -> bool {
    &&& after.dom() == before.dom()
    &&& forall|c: Coord| #[trigger] before.contains_key(c) && c != pos ==> after[c] == before[c]
}

impl World {
    /// Empties slot `h`; the map is left as it was.
    fn take_slot(&mut self, h: usize) -> (r: Option<Chunk>)
        requires
            h < old(self).slots@.len(),
        ensures
            final(self).slots@ == old(self).slots@.update(h as int, None),
            final(self).map == old(self).map,
            r == old(self).slots@[h as int],
    {
        let mut out: Option<Chunk> = None;
        std::mem::swap(&mut out, &mut self.slots[h]);
        out
    }

    /// The loaded chunk next to `pos` towards `dir`.
    pub fn neighbour(&self, pos: Coord, dir: Dir) -> (r: Option<&Chunk>)
        requires
            self.wf(),
        ensures
            r.is_some() == neighbour_in(self.chunks(), pos, dir).is_some(),
            r.is_some() ==> *r.unwrap() == neighbour_in(self.chunks(), pos, dir).unwrap(),
    {
        match pos.step(dir) {
            Some(q) => self.get_chunk(q),
            None => None,
        }
    }

    /// The loaded chunks next to `pos`, one per direction.
    pub fn neighbours_of(&self, pos: Coord) -> (r: Neighbours<&Chunk>)
        requires
            self.wf(),
        ensures
            owned(r) == neighbours_in(self.chunks(), pos),
    {
        Neighbours {
            north: self.neighbour(pos, Dir::North),
            south: self.neighbour(pos, Dir::South),
            west: self.neighbour(pos, Dir::West),
            east: self.neighbour(pos, Dir::East),
            up: self.neighbour(pos, Dir::Up),
            down: self.neighbour(pos, Dir::Down),
        }
    }

    /// Every loaded chunk coordinate, once each.
    pub fn positions(&self) -> (r: Vec<Coord>)
        requires
            self.wf(),
        ensures
            r@.no_duplicates(),
            forall|c: Coord| r@.contains(c) <==> self.chunks().contains_key(c),
    {
        let mut r: Vec<Coord> = Vec::new();
        let mut h: usize = 0;
        while h < self.slots.len()
            invariant
                self.wf(),
                h <= self.slots@.len(),
                r@.no_duplicates(),
                forall|i: int|
                    0 <= i < r@.len() ==> self.map@.contains_key(#[trigger] r@[i]) && self.map@[r@[i]]
                        < h,
                forall|g: int|
                    0 <= g < h && (#[trigger] self.slots@[g]).is_some() ==> r@.contains(
                        self.slots@[g].unwrap().position,
                    ),
            decreases self.slots@.len() - h,
        {
            match &self.slots[h] {
                Some(c) => {
                    assert(self.slots@[h as int].is_some());
                    assert(!r@.contains(c.position)) by {
                        if r@.contains(c.position) {
                            let i = choose|i: int| 0 <= i < r@.len() && r@[i] == c.position;
                            assert(self.map@[r@[i]] < h);
                        }
                    }
                    let ghost before = r@;
                    r.push(c.position);
                    proof {
                        assert(r@[r@.len() - 1] == c.position);
                        assert forall|g: int|
                            0 <= g < h && (#[trigger] self.slots@[g]).is_some() implies r@.contains(
                                self.slots@[g].unwrap().position,
                            ) by {
                            let i = choose|i: int|
                                0 <= i < before.len() && before[i] == self.slots@[g].unwrap().position;
                            assert(r@[i] == before[i]);
                        }
                    }
                },
                None => {},
            }
            h = h + 1;
        }
        proof {
            assert forall|c: Coord| r@.contains(c) <==> self.chunks().contains_key(c) by {
                if self.chunks().contains_key(c) {
                    assert(self.slots@[self.map@[c] as int].is_some());
                }
                if r@.contains(c) {
                    let i = choose|i: int| 0 <= i < r@.len() && r@[i] == c;
                    assert(self.map@.contains_key(r@[i]));
                }
            }
        }
        r
    }

    /// Sets or clears the rebuild flag of the chunk at `pos`, if loaded.
    pub fn set_dirty(&mut self, pos: Coord, dirty: bool)
        requires
            old(self).wf(),
        ensures
            final(self).wf(),
            same_but(old(self).chunks(), final(self).chunks(), pos),
            old(self).chunks().contains_key(pos) ==> final(self).chunks()[pos] == (Chunk {
                regenerate_mesh: dirty,
                ..old(self).chunks()[pos]
            }),
    {
        if let Some(h) = self.map.get_chunk(pos) {
            let slot = self.take_slot(h);
            if let Some(mut c) = slot {
                c.regenerate_mesh = dirty;
                self.slots.set(h, Some(c));
            }
        }
        assert(self.chunks().dom() =~= old(self).chunks().dom());
        proof {
            self.lemma_chunks_wf();
        }
    }

    /// Clears every neighbour flag of the chunk at `pos`, if loaded.
    pub fn clear_neighbour_flags(&mut self, pos: Coord)
        requires
            old(self).wf(),
        ensures
            final(self).wf(),
            same_but(old(self).chunks(), final(self).chunks(), pos),
            old(self).chunks().contains_key(pos) ==> final(self).chunks()[pos] == (Chunk {
                update_neighbours: Neighbours {
                    north: None,
                    south: None,
                    west: None,
                    east: None,
                    up: None,
                    down: None,
                },
                ..old(self).chunks()[pos]
            }),
    {
        if let Some(h) = self.map.get_chunk(pos) {
            let slot = self.take_slot(h);
            if let Some(mut c) = slot {
                c.update_neighbours.clear();
                self.slots.set(h, Some(c));
            }
        }
        assert(self.chunks().dom() =~= old(self).chunks().dom());
        proof {
            self.lemma_chunks_wf();
        }
    }

    /// The block at block coordinate `coords`, or `None` where its chunk is not loaded.
    pub fn get_block(&self, coords: Coord) -> (r: Option<Block>)
        requires
            self.wf(),
        ensures
            r == block_in(self.chunks(), coords),
    {
        let (cc, l) = ChunkMap::coords_to_chunk_coords_and_block(coords);
        match self.get_chunk(cc) {
            Some(c) => Some(c.get_block(l)),
            None => None,
        }
    }

    /// Writes `block` at block coordinate `coords` where its chunk is loaded, and
    /// tells whether it was.
    pub fn set_block(&mut self, coords: Coord, block: Block) -> (r: bool)
        requires
            old(self).wf(),
        ensures
            final(self).wf(),
            r == old(self).chunks().contains_key(chunk_of(coords)),
            same_but(old(self).chunks(), final(self).chunks(), chunk_of(coords)),
            r ==> edited(
                old(self).chunks()[chunk_of(coords)],
                final(self).chunks()[chunk_of(coords)],
                local_of(coords),
                block,
            ),
    {
        let (cc, l) = ChunkMap::coords_to_chunk_coords_and_block(coords);
        let found = match self.map.get_chunk(cc) {
            Some(h) => {
                let slot = self.take_slot(h);
                if let Some(mut c) = slot {
                    c.set_block(l, block);
                    self.slots.set(h, Some(c));
                }
                true
            },
            None => false,
        };
        assert(self.chunks().dom() =~= old(self).chunks().dom());
        proof {
            self.lemma_chunks_wf();
        }
        found
    }
}

} // verus!
