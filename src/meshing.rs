use vstd::prelude::*;

use crate::blocks::{Atlas, BLOCK_KINDS};
use crate::chunk::Chunk;
use crate::coord::Coord;
use crate::mesh::{bits_of, build_chunk_mesh, chunk_mesh, neighbours_wf, owned};
use crate::vertex::ChunkVertex;
use crate::world::{chunks_wf, neighbours_in, World};

verus! {

/// Most chunks whose mesh is rebuilt in one frame.
pub const MESH_BUDGET: usize = 6;

/// Whether some entry of `r` is for chunk `c`.
pub open spec fn serviced(r: Seq<(Coord, Vec<ChunkVertex>)>, c: Coord) -> bool {
    exists|k: int| 0 <= k < r.len() && (#[trigger] r[k]).0 == c
}

/// Rebuilds the meshes of flagged chunks, a bounded number per frame.
pub struct ChunkMeshGeneration;

impl ChunkMeshGeneration {
    /// Rebuilds the mesh of up to `MESH_BUDGET` chunks whose rebuild flag is
    /// set, clears their flags, and hands back each one's coordinate and mesh.
    /// Chunks not served keep their flag for the next frame; a chunk without
    /// the flag is left exactly as it was.
    pub fn run(&mut self, world: &mut World, atlas: &Atlas) -> (r: Vec<(Coord, Vec<ChunkVertex>)>)
        requires
            old(world).wf(),
            atlas.wf(),
            atlas.entries().len() >= BLOCK_KINDS,
        ensures
            final(world).wf(),
            final(world).chunks().dom() == old(world).chunks().dom(),
            r.len() <= MESH_BUDGET,
            forall|k1: int, k2: int| 0 <= k1 < k2 < r.len() ==> r@[k1].0 != r@[k2].0,
            forall|k: int|
                0 <= k < r.len() ==> {
                    let c = (#[trigger] r@[k]).0;
                    &&& old(world).chunks().contains_key(c)
                    &&& old(world).chunks()[c].regenerate_mesh
                    &&& bits_of(r@[k].1@) == chunk_mesh(
                        old(world).chunks()[c],
                        neighbours_in(old(world).chunks(), c),
                    )
                },
            forall|c: Coord|
                #[trigger] old(world).chunks().contains_key(c) ==> final(world).chunks()[c] == (Chunk {
                    regenerate_mesh: old(world).chunks()[c].regenerate_mesh && !serviced(r@, c),
                    ..old(world).chunks()[c]
                }),
            r.len() < MESH_BUDGET ==> forall|c: Coord| #[trigger]
                old(world).chunks().contains_key(c) ==> !final(world).chunks()[c].regenerate_mesh,
    {
        let ghost m = world.chunks();
        proof {
            world.lemma_wf();
        }
        let positions = world.positions();
        let mut out: Vec<(Coord, Vec<ChunkVertex>)> = Vec::new();
        let ghost mut idx: Seq<int> = seq![];
        let mut i: usize = 0;
        while i < positions.len() && out.len() < MESH_BUDGET
            invariant
                world.wf(),
                world.chunks() == m,
                chunks_wf(m),
                atlas.wf(),
                atlas.entries().len() >= BLOCK_KINDS,
                positions@.no_duplicates(),
                forall|c: Coord| positions@.contains(c) <==> m.contains_key(c),
                i <= positions.len(),
                out.len() <= MESH_BUDGET,
                idx.len() == out.len(),
                forall|k: int| 0 <= k < idx.len() ==> 0 <= #[trigger] idx[k] < i,
                forall|k1: int, k2: int| 0 <= k1 < k2 < idx.len() ==> idx[k1] < idx[k2],
                forall|k: int|
                    0 <= k < out.len() ==> {
                        let c = (#[trigger] out@[k]).0;
                        &&& c == positions@[idx[k]]
                        &&& m.contains_key(c)
                        &&& m[c].regenerate_mesh
                        &&& bits_of(out@[k].1@) == chunk_mesh(m[c], neighbours_in(m, c))
                    },
                forall|j: int|
                    0 <= j < i && m[positions@[j]].regenerate_mesh ==> serviced(out@, positions@[j]),
            decreases positions.len() - i,
        {
            let pos = positions[i];
            assert(positions@.contains(pos));
            if let Some(chunk) = world.get_chunk(pos) {
                if chunk.regenerate_mesh {
                    let neighbours = world.neighbours_of(pos);
                    assert(neighbours_wf(owned(neighbours)));
                    let mesh = build_chunk_mesh(atlas, chunk, &neighbours);
                    let ghost before = out@;
                    out.push((pos, mesh));
                    proof {
                        idx = idx.push(i as int);
                        assert(out@[out@.len() - 1].0 == pos);
                        assert forall|j: int|
                            0 <= j <= i && m[positions@[j]].regenerate_mesh implies serviced(
                                out@,
                                positions@[j],
                            ) by {
                            if j < i {
                                let k = choose|k: int|
                                    0 <= k < before.len() && (#[trigger] before[k]).0 == positions@[j];
                                assert(out@[k] == before[k]);
                            } else {
                                assert(out@[out@.len() - 1].0 == positions@[j]);
                            }
                        }
                    }
                }
            }
            i = i + 1;
        }
        proof {
            assert forall|k1: int, k2: int| 0 <= k1 < k2 < out.len() implies out@[k1].0 != out@[k2].0 by {
                assert(idx[k1] < idx[k2]);
            }
            if out.len() < MESH_BUDGET {
                assert(i == positions.len());
            }
        }
        let mut j: usize = 0;
        while j < out.len()
            invariant
                world.wf(),
                chunks_wf(m),
                j <= out.len(),
                world.chunks().dom() == m.dom(),
                forall|k: int| 0 <= k < out.len() ==> m.contains_key((#[trigger] out@[k]).0),
                forall|c: Coord|
                    #[trigger] m.contains_key(c) ==> world.chunks()[c] == (Chunk {
                        regenerate_mesh: m[c].regenerate_mesh && !serviced(out@.take(j as int), c),
                        ..m[c]
                    }),
            decreases out.len() - j,
        {
            let pos = out[j].0;
            world.set_dirty(pos, false);
            proof {
                assert forall|c: Coord| #[trigger] m.contains_key(c) implies world.chunks()[c] == (Chunk {
                    regenerate_mesh: m[c].regenerate_mesh && !serviced(out@.take(j + 1), c),
                    ..m[c]
                }) by {
                    if c == pos {
                        assert(out@.take(j + 1)[j as int].0 == c);
                    } else {
                        if serviced(out@.take(j + 1), c) {
                            let k = choose|k: int|
                                0 <= k < j + 1 && (#[trigger] out@.take(j + 1)[k]).0 == c;
                            assert(out@.take(j as int)[k].0 == c);
                        }
                        if serviced(out@.take(j as int), c) {
                            let k = choose|k: int|
                                0 <= k < j && (#[trigger] out@.take(j as int)[k]).0 == c;
                            assert(out@.take(j + 1)[k].0 == c);
                        }
                    }
                }
            }
            j = j + 1;
        }
        assert(out@.take(out.len() as int) =~= out@);
        out
    }
}

} // verus!
