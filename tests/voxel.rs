use voxel_world::blocks::{Atlas, Block, Side, UvBlock};
use voxel_world::chunk::Chunk;
use voxel_world::chunk_map::ChunkMap;
use voxel_world::coord::{Coord, LocalCoord};
use voxel_world::dir::Dir;
use voxel_world::edits::{BreakBlocks, PlaceBlocks};
use voxel_world::lifecycle::{GenerateChunks, RemoveChunks, UpdateChunks, UpdateNeighbouringChunks};
use voxel_world::meshing::ChunkMeshGeneration;
use voxel_world::mesh::build_chunk_mesh;
use voxel_world::neighbours::Neighbours;
use voxel_world::raycast::{create_block_triangles, LookingAtSystem};
use voxel_world::vertex::{pack, unpack, ChunkVertex};
use voxel_world::world::World;

fn atlas() -> Atlas {
    let names = ["empty", "dirt", "stone", "sand", "water", "grass"];
    let mut blocks = Vec::new();
    for (i, name) in names.iter().enumerate() {
        blocks.push(UvBlock {
            name: name.to_string(),
            base: i,
            top: if i == 5 { Some(6) } else { None },
            side: if i == 5 { Some(7) } else { None },
            index: 0,
        });
    }
    Atlas::new(blocks)
}

fn no_neighbours() -> Neighbours<&'static Chunk> {
    Neighbours::new()
}

#[test]
fn coords_to_chunk_position_and_block() {
    assert_eq!(
        ChunkMap::coords_to_chunk_coords_and_block(Coord::new(10, 40, 20)),
        (Coord::new(0, 2, 1), LocalCoord::new(10, 8, 4))
    );
    assert_eq!(
        ChunkMap::coords_to_chunk_coords_and_block(Coord::new(10, 40, -20)),
        (Coord::new(0, 2, -2), LocalCoord::new(10, 8, 12))
    );
    assert_eq!(
        ChunkMap::coords_to_chunk_coords_and_block(Coord::new(-0, -5, -1)),
        (Coord::new(0, -1, -1), LocalCoord::new(0, 11, 15))
    );
    assert_eq!(
        ChunkMap::coords_to_chunk_coords_and_block(Coord::new(-16, -15, -1)),
        (Coord::new(-1, -1, -1), LocalCoord::new(0, 1, 15))
    );
}

#[test]
fn coords_to_chunk_coords() {
    assert_eq!(
        ChunkMap::coords_to_chunk_coords(Coord::new(0, 0, 0)),
        Coord::new(0, 0, 0)
    );
    assert_eq!(
        ChunkMap::coords_to_chunk_coords(Coord::new(17, 0, -5)),
        Coord::new(1, 0, -1)
    );
}

#[test]
fn chunk_coords_floor_on_exact_multiples() {
    assert_eq!(
        ChunkMap::coords_to_chunk_coords(Coord::new(-16, -17, 16)),
        Coord::new(-1, -2, 1)
    );
    assert_eq!(
        ChunkMap::coords_to_chunk_coords(Coord::new(i32::MIN, i32::MAX, -1)),
        Coord::new(-134217728, 134217727, -1)
    );
}

#[test]
fn split_reconstructs_extreme_coordinates() {
    for &v in &[i32::MIN, i32::MIN + 1, -17, -16, -15, -1, 0, 1, 15, 16, 17, i32::MAX] {
        let (c, l) = ChunkMap::coords_to_chunk_coords_and_block(Coord::new(v, v, v));
        assert!(l.x < 16 && l.y < 16 && l.z < 16);
        assert_eq!(c.x as i64 * 16 + l.x as i64, v as i64);
    }
}

#[test]
fn vertex_packing() {
    let uv_index = 435;
    let dir = Dir::West;
    let p = [9u8, 0, 16];
    let v = pack(p, dir, uv_index);
    assert_eq!(unpack(v), (p, dir, uv_index));
}

#[test]
fn vertex_packing_layout() {
    assert_eq!(pack([1, 2, 3], Dir::Up, 5), 5 | (4 << 11) | (3 << 14) | (2 << 20) | (1 << 26));
    assert_eq!(ChunkVertex::new([63, 63, 63], Dir::Down, 2047).value(), u32::MAX & !(1 << 12));
}

#[test]
fn neighbour_test() {
    let mut neighbours = Neighbours {
        north: Some(0),
        south: None,
        west: Some(45),
        east: Some(-24345),
        up: None,
        down: Some(349934),
    }
    .iter();
    assert_eq!(neighbours.next(), Some((Dir::North, &0)));
    assert_eq!(neighbours.next(), Some((Dir::West, &45)));
    assert_eq!(neighbours.next(), Some((Dir::East, &-24345)));
    assert_eq!(neighbours.next(), Some((Dir::Down, &349934)));
    assert_eq!(neighbours.next(), None);
}

#[test]
fn neighbours_clear_and_get() {
    let mut n = Neighbours { north: Some(1), south: Some(2), west: None, east: Some(4), up: None, down: None };
    assert_eq!(n.get(Dir::East), Some(&4));
    assert_eq!(n.get(Dir::West), None);
    n.clear();
    assert_eq!(n.iter().next(), None);
}

#[test]
fn dir_iter_in_ordinal_order() {
    let mut it = Dir::iter();
    let mut seen = Vec::new();
    while let Some(d) = it.next() {
        seen.push(d);
    }
    assert_eq!(seen, vec![Dir::North, Dir::South, Dir::East, Dir::West, Dir::Up, Dir::Down]);
    for (i, d) in seen.iter().enumerate() {
        assert_eq!(d.index() as usize, i);
        assert_eq!(Dir::from_index(i as u8), *d);
    }
    assert_eq!(it.next(), None);
    assert_eq!(Coord::from(Dir::West), Coord::new(-1, 0, 0));
    assert_eq!(Coord::from(Dir::North), Coord::new(0, 0, 1));
}

#[test]
fn block_tags() {
    assert_eq!(Block::from_u32(0), Block::Empty);
    assert_eq!(Block::from_u32(5), Block::Grass);
    assert_eq!(Block::Sand.tag_of(), 3);
}

#[test]
fn atlas_layout() {
    let a = atlas();
    assert_eq!(a.blocks()[0].index, 0);
    assert_eq!(a.blocks()[5].index, 60);
    assert_eq!(a.uvs_of_block_index(5, Side::Top), [68, 69, 70, 71]);
    assert_eq!(a.uvs_of_block_index(2, Side::Side), [28, 29, 30, 31]);
    assert_eq!(a.uvs_of_block_index(1, Side::Base), [12, 13, 14, 15]);
    assert_eq!(a.blocks()[5].textures(), [5, 7, 6]);
    assert_eq!(a.blocks()[1].textures(), [1, 1, 1]);
}

#[test]
fn set_block_same_value_keeps_flags() {
    let mut c = Chunk::empty(Coord::new(0, 0, 0));
    c.set_block(LocalCoord::new(0, 0, 0), Block::Empty);
    assert!(!c.regenerate_mesh);
    assert!(c.update_neighbours.iter().next().is_none());
    c.set_block(LocalCoord::new(0, 15, 7), Block::Dirt);
    assert!(c.regenerate_mesh);
    assert_eq!(c.get_block(LocalCoord::new(0, 15, 7)), Block::Dirt);
    assert!(c.update_neighbours.west.is_some());
    assert!(c.update_neighbours.up.is_some());
    assert!(c.update_neighbours.east.is_none());
    assert!(c.update_neighbours.north.is_none());
    assert!(c.update_neighbours.south.is_none());
    c.regenerate_mesh = false;
    c.update_neighbours.clear();
    c.set_block(LocalCoord::new(0, 15, 7), Block::Dirt);
    assert!(!c.regenerate_mesh);
    assert!(c.update_neighbours.iter().next().is_none());
}

#[test]
fn single_block_mesh() {
    let a = atlas();
    let mut c = Chunk::empty(Coord::new(0, 0, 0));
    c.set_block(LocalCoord::new(3, 4, 5), Block::Stone);
    let mesh = build_chunk_mesh(&a, &c, &no_neighbours());
    assert_eq!(mesh.len(), 36);
    let (pos, dir, uv) = unpack(mesh[0].value());
    assert_eq!((pos, dir, uv), ([3, 4, 6], Dir::North, 24 + 4 + 2));
    let (pos, dir, uv) = unpack(mesh[24].value());
    assert_eq!((pos, dir, uv), ([3, 5, 5], Dir::Up, 24 + 8));
}

#[test]
fn solid_chunk_shows_faces_towards_unloaded_sides() {
    let a = atlas();
    let c = Chunk::filled(Coord::new(0, 0, 0), Block::Stone);
    let mesh = build_chunk_mesh(&a, &c, &no_neighbours());
    assert_eq!(mesh.len(), 6 * 256 * 6);
    assert_eq!(mesh.iter().filter(|v| unpack(v.value()).1 == Dir::East).count(), 1536);
    let east = Chunk::filled(Coord::new(1, 0, 0), Block::Stone);
    let mut n: Neighbours<&Chunk> = Neighbours::new();
    n.east = Some(&east);
    let mesh = build_chunk_mesh(&a, &c, &n);
    assert_eq!(mesh.len(), 5 * 256 * 6);
    assert!(mesh.iter().all(|v| unpack(v.value()).1 != Dir::East));
    let empty_east = Chunk::empty(Coord::new(1, 0, 0));
    n.east = Some(&empty_east);
    let mesh = build_chunk_mesh(&a, &c, &n);
    assert_eq!(mesh.len(), 6 * 256 * 6);
}

#[test]
fn remesh_skips_clean_chunks_and_keeps_budget() {
    let a = atlas();
    let mut w = World::new();
    for x in 0..8 {
        let mut c = Chunk::filled(Coord::new(x, 0, 0), Block::Dirt);
        c.regenerate_mesh = x % 4 != 0;
        w.insert_chunk(c);
    }
    let first = ChunkMeshGeneration.run(&mut w, &a);
    assert_eq!(first.len(), 6);
    let second = ChunkMeshGeneration.run(&mut w, &a);
    assert_eq!(second.len(), 0);
    let third = ChunkMeshGeneration.run(&mut w, &a);
    assert!(third.is_empty());
    for x in 0..8 {
        assert!(!w.get_chunk(Coord::new(x, 0, 0)).unwrap().regenerate_mesh);
    }
    for (pos, _) in &first {
        assert!(pos.x % 4 != 0);
    }
}

#[test]
fn remesh_uses_loaded_neighbours() {
    let a = atlas();
    let mut w = World::new();
    let mut c = Chunk::filled(Coord::new(0, 0, 0), Block::Stone);
    c.regenerate_mesh = true;
    w.insert_chunk(c);
    w.insert_chunk(Chunk::filled(Coord::new(0, 1, 0), Block::Stone));
    let out = ChunkMeshGeneration.run(&mut w, &a);
    assert_eq!(out.len(), 1);
    assert_eq!(out[0].0, Coord::new(0, 0, 0));
    assert_eq!(out[0].1.len(), 5 * 256 * 6);
}

#[test]
fn generation_and_hysteresis() {
    let mut w = World::new();
    let players = vec![Coord::new(5, 70, 5)];
    GenerateChunks.run(&mut w, &players);
    let count = w.positions().len();
    assert_eq!(count, 109);
    let c = w.get_chunk(Coord::new(5, 0, 0)).unwrap();
    assert!(c.regenerate_mesh);
    assert_eq!(c.get_block(LocalCoord::new(1, 2, 3)), Block::Grass);
    assert_eq!(count_set(&c.update_neighbours), 6);
    assert!(w.get_chunk(Coord::new(6, 0, 0)).is_none());
    assert!(w.get_chunk(Coord::new(0, 1, 0)).is_none());
    // Player moves seven chunks east: the chunk at x = 0 is at distance 7.
    let moved = vec![Coord::new(7 * 16 + 3, 70, 5)];
    let removed = RemoveChunks.run(&mut w, &moved);
    assert!(w.get_chunk(Coord::new(0, 0, 0)).is_some());
    assert!(w.get_chunk(Coord::new(-1, 0, 0)).is_some());
    assert!(w.get_chunk(Coord::new(-2, 0, 0)).is_none());
    assert!(w.get_chunk(Coord::new(0, 0, 5)).is_none());
    assert!(removed.contains(&Coord::new(-2, 0, 0)));
    assert!(removed.contains(&Coord::new(0, 0, 5)));
    assert!(!removed.contains(&Coord::new(0, 0, 0)));
    assert_eq!(w.positions().len() + removed.len(), count);
    // At exactly the eviction radius the chunk stays.
    let at_edge = vec![Coord::new(8 * 16, 0, 0)];
    RemoveChunks.run(&mut w, &at_edge);
    assert!(w.get_chunk(Coord::new(0, 0, 0)).is_some());
    let gone = vec![Coord::new(9 * 16, 0, 0)];
    RemoveChunks.run(&mut w, &gone);
    assert!(w.get_chunk(Coord::new(0, 0, 0)).is_none());
}

fn count_set<T>(n: &Neighbours<T>) -> usize {
    let mut it = n.iter();
    let mut count = 0;
    while it.next().is_some() {
        count += 1;
    }
    count
}

#[test]
fn eviction_flags_neighbours_of_removed() {
    let mut w = World::new();
    w.insert_chunk(Chunk::filled(Coord::new(0, 0, 0), Block::Stone));
    w.insert_chunk(Chunk::filled(Coord::new(20, 0, 0), Block::Stone));
    w.insert_chunk(Chunk::filled(Coord::new(21, 0, 0), Block::Stone));
    let removed = RemoveChunks.run(&mut w, &vec![Coord::new(0, 0, 0)]);
    assert_eq!(removed.len(), 2);
    UpdateChunks.run(&mut w, &removed);
    assert!(!w.get_chunk(Coord::new(0, 0, 0)).unwrap().regenerate_mesh);
    let mut w2 = World::new();
    w2.insert_chunk(Chunk::filled(Coord::new(0, 0, 0), Block::Stone));
    UpdateChunks.run(&mut w2, &vec![Coord::new(1, 0, 0)]);
    assert!(w2.get_chunk(Coord::new(0, 0, 0)).unwrap().regenerate_mesh);
}

#[test]
fn neighbour_propagation() {
    let mut w = World::new();
    w.insert_chunk(Chunk::empty(Coord::new(0, 0, 0)));
    w.insert_chunk(Chunk::empty(Coord::new(-1, 0, 0)));
    w.insert_chunk(Chunk::empty(Coord::new(0, 0, 1)));
    assert!(w.set_block(Coord::new(0, 3, 3), Block::Sand));
    UpdateNeighbouringChunks.run(&mut w);
    assert!(w.get_chunk(Coord::new(-1, 0, 0)).unwrap().regenerate_mesh);
    assert!(!w.get_chunk(Coord::new(0, 0, 1)).unwrap().regenerate_mesh);
    assert!(w.get_chunk(Coord::new(0, 0, 0)).unwrap().update_neighbours.iter().next().is_none());
}

#[test]
fn break_and_place() {
    let mut w = World::new();
    assert_eq!(BreakBlocks.run(&mut w, Coord::new(1, 2, 3)), None);
    assert!(PlaceBlocks.run(&mut w, Coord::new(0, -1, 0), Dir::Up));
    assert_eq!(w.get_block(Coord::new(0, 0, 0)), Some(Block::Stone));
    assert!(w.get_chunk(Coord::new(0, 0, 0)).unwrap().regenerate_mesh);
    assert!(!PlaceBlocks.run(&mut w, Coord::new(0, 0, 0), Dir::East));
    assert_eq!(w.get_block(Coord::new(1, 0, 0)), Some(Block::Stone));
    assert_eq!(BreakBlocks.run(&mut w, Coord::new(1, 0, 0)), Some(Block::Stone));
    assert_eq!(w.get_block(Coord::new(1, 0, 0)), Some(Block::Empty));
    assert!(!PlaceBlocks.run(&mut w, Coord::new(i32::MAX, 0, 0), Dir::East));
}

#[test]
fn ray_broad_phase_finds_single_block() {
    let mut w = World::new();
    assert!(PlaceBlocks.run(&mut w, Coord::new(0, -1, 0), Dir::Up));
    let found = LookingAtSystem::candidates(&w, Coord::new(0, 5, 0), 10);
    assert_eq!(found, vec![Coord::new(0, 0, 0)]);
    let none = LookingAtSystem::candidates(&w, Coord::new(100, 5, 0), 10);
    assert!(none.is_empty());
}

#[test]
fn ray_broad_phase_empty_world() {
    let w = World::new();
    assert!(LookingAtSystem::candidates(&w, Coord::new(0, 0, 0), 5).is_empty());
    assert!(LookingAtSystem::candidates(&w, Coord::new(i32::MAX, i32::MIN, 0), 3).is_empty());
}

#[test]
fn ray_broad_phase_order() {
    let mut w = World::new();
    w.insert_chunk(Chunk::empty(Coord::new(0, 0, 0)));
    w.set_block(Coord::new(1, 0, 0), Block::Dirt);
    w.set_block(Coord::new(0, 1, 0), Block::Dirt);
    w.set_block(Coord::new(0, 0, 1), Block::Dirt);
    let found = LookingAtSystem::candidates(&w, Coord::new(1, 1, 1), 1);
    assert_eq!(found, vec![Coord::new(0, 0, 1), Coord::new(0, 1, 0), Coord::new(1, 0, 0)]);
}

#[test]
fn cube_triangles_face_outwards_and_cover_faces() {
    let t = create_block_triangles();
    for (tri, d) in t.iter() {
        let sub = |a: [u8; 3], b: [u8; 3]| [a[0] as i32 - b[0] as i32, a[1] as i32 - b[1] as i32, a[2] as i32 - b[2] as i32];
        let u = sub(tri.p1, tri.p0);
        let v = sub(tri.p2, tri.p0);
        let n = Coord::new(u[1] * v[2] - u[2] * v[1], u[2] * v[0] - u[0] * v[2], u[0] * v[1] - u[1] * v[0]);
        assert_eq!(n, Coord::from(*d));
    }
    for f in 0..6 {
        let (a, b) = (t[2 * f].0, t[2 * f + 1].0);
        let corners = [a.p0, a.p1, a.p2, b.p0, b.p1, b.p2];
        let mut distinct: Vec<[u8; 3]> = Vec::new();
        for c in corners {
            if !distinct.contains(&c) {
                distinct.push(c);
            }
        }
        assert_eq!(distinct.len(), 4);
        let shared: Vec<[u8; 3]> = [a.p0, a.p1, a.p2].iter().filter(|p| [b.p0, b.p1, b.p2].contains(p)).cloned().collect();
        assert_eq!(shared.len(), 2);
        let differing = (0..3).filter(|&k| shared[0][k] != shared[1][k]).count();
        assert_eq!(differing, 2);
    }
}

#[test]
fn cube_triangles_lie_on_their_faces() {
    let t = create_block_triangles();
    assert_eq!(t[0].1, Dir::North);
    assert_eq!(t[9].1, Dir::Up);
    assert_eq!(t[8].0.p0, [0, 1, 0]);
    for (tri, d) in t.iter() {
        for p in [tri.p0, tri.p1, tri.p2] {
            match d {
                Dir::Up => assert_eq!(p[1], 1),
                Dir::Down => assert_eq!(p[1], 0),
                Dir::East => assert_eq!(p[0], 1),
                Dir::West => assert_eq!(p[0], 0),
                Dir::North => assert_eq!(p[2], 1),
                Dir::South => assert_eq!(p[2], 0),
            }
        }
    }
}
