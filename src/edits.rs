use vstd::prelude::*;

use crate::blocks::Block;
use crate::chunk::{edited, flags_after_edit, Chunk};
use crate::chunk_map::ChunkMap;
use crate::coord::{chunk_of, local_of, shifted, Coord, CHUNK_VOLUME};
use crate::dir::Dir;
use crate::world::{block_in, same_but, World};

verus! {

/// A chunk made for a block placed where no chunk was loaded: empty but for
/// `b` at `l`, flagged for a rebuild and for the faces that `l` lies on.
pub open spec fn placed_chunk(ch: Chunk, pos: Coord, l: crate::coord::LocalCoord, b: Block) -> bool {
    &&& ch.wf()
    &&& ch.position == pos
    &&& forall|i: int|
        0 <= i < CHUNK_VOLUME ==> #[trigger] ch.cells()[i] == if i == l.flat() {
            b
        } else {
            Block::Empty
        }
    &&& b != Block::Empty ==> ch.regenerate_mesh
    &&& b != Block::Empty ==> ch.update_neighbours == flags_after_edit(
        crate::neighbours::Neighbours {
            north: None,
            south: None,
            west: None,
            east: None,
            up: None,
            down: None,
        },
        l,
    )
}

/// Breaks the block that a player looks at.
pub struct BreakBlocks;

impl BreakBlocks {
    /// Empties the block at `coords` where its chunk is loaded, and hands back
    /// the block that was there.
    pub fn run(&mut self, world: &mut World, coords: Coord) -> (r: Option<Block>)
        requires
            old(world).wf(),
        ensures
            final(world).wf(),
            r == block_in(old(world).chunks(), coords),
            r.is_none() ==> final(world).chunks() == old(world).chunks(),
            r.is_some() ==> {
                &&& same_but(old(world).chunks(), final(world).chunks(), chunk_of(coords))
                &&& edited(
                    old(world).chunks()[chunk_of(coords)],
                    final(world).chunks()[chunk_of(coords)],
                    local_of(coords),
                    Block::Empty,
                )
            },
    {
        let prev = world.get_block(coords);
        if prev.is_some() {
            world.set_block(coords, Block::Empty);
        }
        prev
    }
}

/// Places a stone block against the face that a player looks at.
pub struct PlaceBlocks;

impl PlaceBlocks {
    /// Writes stone into the cell next to `looked_at` across face `face`.
    /// Where that cell's chunk is not loaded, a new chunk is made for it; the
    /// result tells whether that happened.
    pub fn run(&mut self, world: &mut World, looked_at: Coord, face: Dir) -> (r: bool)
        requires
            old(world).wf(),
        ensures
            final(world).wf(),
            match shifted(looked_at, face.dx(), face.dy(), face.dz()) {
                None => !r && final(world).chunks() == old(world).chunks(),
                Some(t) => {
                    let cc = chunk_of(t);
                    &&& r == !old(world).chunks().contains_key(cc)
                    &&& !r ==> {
                        &&& same_but(old(world).chunks(), final(world).chunks(), cc)
                        &&& edited(
                            old(world).chunks()[cc],
                            final(world).chunks()[cc],
                            local_of(t),
                            Block::Stone,
                        )
                    }
                    &&& r ==> {
                        &&& final(world).chunks() == old(world).chunks().insert(
                            cc,
                            final(world).chunks()[cc],
                        )
                        &&& placed_chunk(final(world).chunks()[cc], cc, local_of(t), Block::Stone)
                    }
                },
            },
    {
        let target = match looked_at.step(face) {
            Some(t) => t,
            None => {
                return false;
            },
        };
        let (chunk_coords, block_coords) = ChunkMap::coords_to_chunk_coords_and_block(target);
        if world.get_chunk(chunk_coords).is_some() {
            world.set_block(target, Block::Stone);
            false
        } else {
            let mut chunk = Chunk::empty(chunk_coords);
            chunk.set_block(block_coords, Block::Stone);
            let ghost placed = chunk;
            world.insert_chunk(chunk);
            assert(world.chunks()[chunk_coords] == placed);
            assert(world.chunks() =~= old(world).chunks().insert(chunk_coords, world.chunks()[chunk_coords]));
            true
        }
    }
}

} // verus!
