use vstd::prelude::*;

use crate::blocks::Block;
use crate::coord::{Coord, LocalCoord, CHUNK_SIZE, CHUNK_VOLUME};
use crate::neighbours::Neighbours;

verus! {

/// A cube of `CHUNK_SIZE`³ blocks, stored flat at `x * 256 + y * 16 + z`.
#[derive(Debug)]
pub struct Chunk {
    /// The chunk's coordinate in chunk space.
    pub position: Coord,
    /// The cells, flat; always `CHUNK_VOLUME` long.
    pub blocks: Vec<Block>,
    /// Whether the mesh of this chunk has to be rebuilt.
    pub regenerate_mesh: bool,
    /// The face-adjacent chunks that have to be flagged for a rebuild.
    pub update_neighbours: Neighbours<()>,
}

/// The neighbour flags after an edit at `l`: each axis on which `l` lies on the
/// chunk's lower or upper face marks the direction out of that face.
pub open spec fn flags_after_edit(f: Neighbours<()>, l: LocalCoord) -> Neighbours<()> {
    Neighbours {
        west: if l.x == 0 { Some(()) } else { f.west },
        east: if l.x == CHUNK_SIZE - 1 { Some(()) } else { f.east },
        down: if l.y == 0 { Some(()) } else { f.down },
        up: if l.y == CHUNK_SIZE - 1 { Some(()) } else { f.up },
        south: if l.z == 0 { Some(()) } else { f.south },
        north: if l.z == CHUNK_SIZE - 1 { Some(()) } else { f.north },
    }
}

/// `after` is `before` with `b` written at `l`: only a change of value sets
/// the rebuild flag and the flags of the faces that `l` lies on.
pub open spec fn edited(before: Chunk, after: Chunk, l: LocalCoord, b: Block) -> bool {
    &&& after.wf()
    &&& after.position == before.position
    &&& after.cells() == before.cells().update(l.flat(), b)
    &&& before.block_at(l) == b ==> after == before
    &&& before.block_at(l) != b ==> {
        &&& after.regenerate_mesh
        &&& after.update_neighbours == flags_after_edit(before.update_neighbours, l)
    }
}

impl Chunk {
    /// The cells, flat.
    pub open spec fn cells(&self) -> Seq<Block> {
        self.blocks@
    }

    pub open spec fn wf(&self) -> bool {
        self.cells().len() == CHUNK_VOLUME
    }

    /// The block at local coordinate `l`.
    pub open spec fn block_at(&self, l: LocalCoord) -> Block {
        self.cells()[l.flat()]
    }

    /// A chunk whose every cell holds `block`, with no flag set.
    pub fn filled(position: Coord, block: Block) -> (r: Chunk)
        ensures
            r.wf(),
            r.position == position,
            forall|i: int| 0 <= i < CHUNK_VOLUME ==> #[trigger] r.cells()[i] == block,
            !r.regenerate_mesh,
            r.update_neighbours.is_clear(),
    {
        let mut blocks: Vec<Block> = Vec::new();
        let mut i: usize = 0;
        while i < CHUNK_VOLUME
            invariant
                i <= CHUNK_VOLUME,
                blocks.len() == i,
                forall|j: int| 0 <= j < i ==> #[trigger] blocks@[j] == block,
            decreases CHUNK_VOLUME - i,
        {
            blocks.push(block);
            i = i + 1;
        }
        Chunk { position, blocks, regenerate_mesh: false, update_neighbours: Neighbours::new() }
    }

    /// An all-empty chunk with no flag set.
    pub fn empty(position: Coord) -> (r: Chunk)
        ensures
            r.wf(),
            r.position == position,
            forall|i: int| 0 <= i < CHUNK_VOLUME ==> #[trigger] r.cells()[i] == Block::Empty,
            !r.regenerate_mesh,
            r.update_neighbours.is_clear(),
    {
        Self::filled(position, Block::Empty)
    }

    pub fn get_block(&self, pos: LocalCoord) -> (r: Block)
        requires
            self.wf(),
            pos.in_chunk(),
        ensures
            r == self.block_at(pos),
    {
        let i = pos.x as usize * 256 + pos.y as usize * 16 + pos.z as usize;
        self.blocks[i]
    }

    /// Writes one cell. Only a change of value sets the rebuild flag and, where
    /// the cell lies on a face of the chunk, the flag of that face's neighbour.
    pub fn set_block(&mut self, pos: LocalCoord, block: Block)
        requires
            old(self).wf(),
            pos.in_chunk(),
        ensures
            edited(*old(self), *final(self), pos, block),
    {
        let i = pos.x as usize * 256 + pos.y as usize * 16 + pos.z as usize;
        if self.blocks[i] != block {
            self.blocks.set(i, block);
            self.regenerate_mesh = true;
            if pos.x == 0 {
                self.update_neighbours.west = Some(());
            } else if pos.x as usize == CHUNK_SIZE - 1 {
                self.update_neighbours.east = Some(());
            }
            if pos.y == 0 {
                self.update_neighbours.down = Some(());
            } else if pos.y as usize == CHUNK_SIZE - 1 {
                self.update_neighbours.up = Some(());
            }
            if pos.z == 0 {
                self.update_neighbours.south = Some(());
            } else if pos.z as usize == CHUNK_SIZE - 1 {
                self.update_neighbours.north = Some(());
            }
        }
        assert(self.cells() =~= old(self).cells().update(pos.flat(), block));
    }
}

} // verus!
