use vstd::prelude::*;

use crate::blocks::Block;
use crate::chunk::Chunk;
use crate::chunk_map::ChunkMap;
use crate::coord::{chunk_of, shifted, Coord, CHUNK_VOLUME};
use crate::dir::{dir_of_ordinal, Dir};
use crate::neighbours::Neighbours;
use crate::world::{chunks_wf, World};

verus! {

/// Chunks closer than this to a player, horizontally, are generated.
pub const GENERATION_RADIUS: i64 = 6;

/// Chunks farther than this from every player, horizontally, are evicted.
pub const EVICTION_RADIUS: i64 = 8;

/// The ground-layer chunk column of a player standing at block coordinate `b`.
pub open spec fn player_column(b: Coord) -> Coord {
    Coord { y: 0, ..chunk_of(b) }
}

/// Squared distance of two chunk coordinates, ignoring the vertical axis.
pub open spec fn horizontal_dist2(a: Coord, b: Coord) -> int {
    (a.x - b.x) * (a.x - b.x) + (a.z - b.z) * (a.z - b.z)
}

/// Whether the chunk at `c` is generated for a player at block coordinate `player`:
/// it lies on the ground layer, closer than the generation radius.
pub open spec fn in_generation_range(c: Coord, player: Coord) -> bool {
    c.y == 0 && horizontal_dist2(c, player_column(player)) < GENERATION_RADIUS * GENERATION_RADIUS
}

/// Whether one of the first `n` players wants the chunk at `c` generated.
pub open spec fn wanted_by(c: Coord, players: Seq<Coord>, n: int) -> bool {
    exists|k: int| 0 <= k < n && #[trigger] in_generation_range(c, players[k])
}

/// Whether a player at block coordinate `player` keeps the chunk at `c` loaded.
pub open spec fn in_keep_range(c: Coord, player: Coord) -> bool {
    horizontal_dist2(c, player_column(player)) <= EVICTION_RADIUS * EVICTION_RADIUS
}

/// Whether some player keeps the chunk at `c` loaded.
pub open spec fn kept(c: Coord, players: Seq<Coord>) -> bool {
    exists|k: int| 0 <= k < players.len() && #[trigger] in_keep_range(c, players[k])
}

/// A newly generated chunk at `c`: all grass, flagged for a rebuild, with all
/// six neighbours flagged too.
pub open spec fn fresh_chunk(ch: Chunk, c: Coord) -> bool {
    &&& ch.wf()
    &&& ch.position == c
    &&& forall|i: int| 0 <= i < CHUNK_VOLUME ==> #[trigger] ch.cells()[i] == Block::Grass
    &&& ch.regenerate_mesh
    &&& ch.update_neighbours.north.is_some()
    &&& ch.update_neighbours.south.is_some()
    &&& ch.update_neighbours.west.is_some()
    &&& ch.update_neighbours.east.is_some()
    &&& ch.update_neighbours.up.is_some()
    &&& ch.update_neighbours.down.is_some()
}

/// Progress of generation: `w` holds what `m` held, what the first `i` players
/// want, and what `player` wants in the columns before `(dx, dz)`.
pub open spec fn generated_up_to(
    w: Map<Coord, Chunk>,
    m: Map<Coord, Chunk>,
    players: Seq<Coord>,
    i: int,
    player: Coord,
    dx: int,
    dz: int,
) -> bool {
    let col = player_column(player);
    forall|c: Coord|
        #[trigger] w.contains_key(c) <==> (m.contains_key(c) || wanted_by(c, players, i) || (
        in_generation_range(c, player) && (c.x - col.x < dx || (c.x - col.x == dx && c.z - col.z
            < dz))))
}

proof fn lemma_square_bound(a: int, b: int)
    requires
        a * a + b * b < 36,
    ensures
        -6 < a < 6,
{
    assert(b * b >= 0) by (nonlinear_arith);
    assert(-6 < a < 6) by (nonlinear_arith)
        requires
            a * a < 36,
    ;
}

proof fn lemma_chunk_axis_bounds(a: i32)
    ensures
        -134217728 <= (a as int) / 16 <= 134217727,
{
}

/// Eviction keeps more than generation makes: a chunk that a player's
/// generation reaches is kept by eviction, and so is every chunk whose
/// horizontal distance to that player's column stays within the eviction
/// radius, even where it is past the generation radius.
pub proof fn lemma_generation_inside_eviction(c: Coord, player: Coord, players: Seq<Coord>)
    requires
        players.contains(player),
    ensures
        in_generation_range(c, player) ==> in_keep_range(c, player),
        in_keep_range(c, player) ==> kept(c, players),
        in_generation_range(c, player) ==> kept(c, players),
{
    let k = choose|k: int| 0 <= k < players.len() && players[k] == player;
    assert(in_keep_range(c, player) ==> in_keep_range(c, players[k]));
}

/// A generated chunk at `position`.
fn generated_chunk(position: Coord) -> (r: Chunk)
    ensures
        fresh_chunk(r, position),
{
    let mut chunk = Chunk::filled(position, Block::Grass);
    chunk.regenerate_mesh = true;
    chunk.update_neighbours.west = Some(());
    chunk.update_neighbours.east = Some(());
    chunk.update_neighbours.north = Some(());
    chunk.update_neighbours.south = Some(());
    chunk.update_neighbours.up = Some(());
    chunk.update_neighbours.down = Some(());
    chunk
}

/// Generates the chunks around each player.
pub struct GenerateChunks;

impl GenerateChunks {
    /// For each player, given by block coordinate, generates every ground-layer
    /// chunk closer than `GENERATION_RADIUS` to the player's column that is not
    /// loaded yet. Loaded chunks are left as they are.
    pub fn run(&mut self, world: &mut World, players: &Vec<Coord>)
        requires
            old(world).wf(),
        ensures
            final(world).wf(),
            forall|c: Coord|
                final(world).chunks().contains_key(c) <==> (old(world).chunks().contains_key(c)
                    || wanted_by(c, players@, players@.len() as int)),
            forall|c: Coord| #[trigger]
                old(world).chunks().contains_key(c) ==> final(world).chunks()[c] == old(
                    world,
                ).chunks()[c],
            forall|c: Coord|
                !old(world).chunks().contains_key(c) && #[trigger] final(world).chunks().contains_key(c)
                    ==> fresh_chunk(final(world).chunks()[c], c),
    {
        let ghost m = old(world).chunks();
        let mut i: usize = 0;
        while i < players.len()
            invariant
                world.wf(),
                i <= players.len(),
                forall|c: Coord|
                    world.chunks().contains_key(c) <==> (m.contains_key(c) || wanted_by(c, players@, i as int)),
                forall|c: Coord| #[trigger] m.contains_key(c) ==> world.chunks().contains_key(c) && world.chunks()[c] == m[c],
                forall|c: Coord|
                    !m.contains_key(c) && #[trigger] world.chunks().contains_key(c) ==> fresh_chunk(
                        world.chunks()[c],
                        c,
                    ),
            decreases players.len() - i,
        {
            let player = players[i];
            let p = ChunkMap::coords_to_chunk_coords(player);
            proof {
                lemma_chunk_axis_bounds(player.x);
                lemma_chunk_axis_bounds(player.z);
            }
            let ghost col = player_column(player);
            let mut dx: i64 = -GENERATION_RADIUS;
            proof {
                assert forall|c: Coord| #[trigger]
                    world.chunks().contains_key(c) <==> (m.contains_key(c) || wanted_by(
                        c,
                        players@,
                        i as int,
                    ) || (in_generation_range(c, player) && (c.x - col.x < dx || (c.x - col.x
                        == dx && c.z - col.z < -7)))) by {
                    if in_generation_range(c, player) {
                        lemma_square_bound(c.x - col.x, c.z - col.z);
                        lemma_square_bound(c.z - col.z, c.x - col.x);
                    }
                }
                assert(generated_up_to(world.chunks(), m, players@, i as int, player, dx as int, -7));
            }
            while dx <= GENERATION_RADIUS
                invariant
                    world.wf(),
                    i < players.len(),
                    player == players@[i as int],
                    col == player_column(player),
                    p == chunk_of(player),
                    -134217728 <= p.x <= 134217727,
                    -134217728 <= p.z <= 134217727,
                    -GENERATION_RADIUS <= dx <= GENERATION_RADIUS + 1,
                    generated_up_to(world.chunks(), m, players@, i as int, player, dx as int, -7),
                    forall|c: Coord| #[trigger] m.contains_key(c) ==> world.chunks().contains_key(c) && world.chunks()[c] == m[c],
                    forall|c: Coord|
                        !m.contains_key(c) && #[trigger] world.chunks().contains_key(c) ==> fresh_chunk(
                            world.chunks()[c],
                            c,
                        ),
                decreases GENERATION_RADIUS + 1 - dx,
            {
                let mut dz: i64 = -GENERATION_RADIUS;
                proof {
                    assert forall|c: Coord|
                        in_generation_range(c, player) && c.x - col.x == dx implies !(c.z - col.z
                        < dz) by {
                        lemma_square_bound(c.z - col.z, c.x - col.x);
                    }
                    assert forall|c: Coord| #[trigger]
                        world.chunks().contains_key(c) <==> (m.contains_key(c) || wanted_by(
                            c,
                            players@,
                            i as int,
                        ) || (in_generation_range(c, player) && (c.x - col.x < dx || (c.x - col.x
                            == dx && c.z - col.z < dz)))) by {
                        if in_generation_range(c, player) && c.x - col.x == dx {
                            assert(!(c.z - col.z < dz));
                        }
                        if in_generation_range(c, player) && c.x - col.x == dx - 1 {
                            assert(!(c.z - col.z < -7)) by {
                                lemma_square_bound(c.z - col.z, c.x - col.x);
                            }
                        }
                    }
                    assert(generated_up_to(world.chunks(), m, players@, i as int, player, dx as int, dz as int));
                }
                while dz <= GENERATION_RADIUS
                    invariant
                        world.wf(),
                        i < players.len(),
                        player == players@[i as int],
                        col == player_column(player),
                        p == chunk_of(player),
                        -134217728 <= p.x <= 134217727,
                        -134217728 <= p.z <= 134217727,
                        -GENERATION_RADIUS <= dx <= GENERATION_RADIUS,
                        -GENERATION_RADIUS <= dz <= GENERATION_RADIUS + 1,
                        generated_up_to(world.chunks(), m, players@, i as int, player, dx as int, dz as int),
                        forall|c: Coord| #[trigger] m.contains_key(c) ==> world.chunks().contains_key(c) && world.chunks()[c] == m[c],
                        forall|c: Coord|
                            !m.contains_key(c) && #[trigger] world.chunks().contains_key(c)
                                ==> fresh_chunk(world.chunks()[c], c),
                    decreases GENERATION_RADIUS + 1 - dz,
                {
                    let q = Coord { x: (p.x as i64 + dx) as i32, y: 0, z: (p.z as i64 + dz) as i32 };
                    assert(q.x - col.x == dx && q.z - col.z == dz);
                    assert(0 <= dx * dx <= 36 && 0 <= dz * dz <= 36) by (nonlinear_arith)
                        requires
                            -6 <= dx <= 6,
                            -6 <= dz <= 6,
                    ;
                    if dx * dx + dz * dz < GENERATION_RADIUS * GENERATION_RADIUS {
                        assert(in_generation_range(q, player));
                        if world.get_chunk(q).is_none() {
                            let chunk = generated_chunk(q);
                            world.insert_chunk(chunk);
                        }
                    } else {
                        assert(!in_generation_range(q, player));
                    }
                    dz = dz + 1;
                }
                proof {
                    assert forall|c: Coord| #[trigger]
                        world.chunks().contains_key(c) <==> (m.contains_key(c) || wanted_by(
                            c,
                            players@,
                            i as int,
                        ) || (in_generation_range(c, player) && (c.x - col.x < dx + 1 || (c.x
                            - col.x == dx + 1 && c.z - col.z < -7)))) by {
                        if in_generation_range(c, player) {
                            lemma_square_bound(c.x - col.x, c.z - col.z);
                            lemma_square_bound(c.z - col.z, c.x - col.x);
                        }
                    }
                    assert(generated_up_to(world.chunks(), m, players@, i as int, player, dx + 1, -7));
                }
                dx = dx + 1;
            }
            proof {
                assert forall|c: Coord| in_generation_range(c, player) implies c.x - col.x < dx by {
                    lemma_square_bound(c.x - col.x, c.z - col.z);
                }
                assert forall|c: Coord|
                    wanted_by(c, players@, i + 1) <==> (wanted_by(c, players@, i as int)
                        || in_generation_range(c, player)) by {
                    if wanted_by(c, players@, i + 1) {
                        let k = choose|k: int| 0 <= k < i + 1 && #[trigger] in_generation_range(c, players@[k]);
                        if k < i {
                            assert(wanted_by(c, players@, i as int));
                        }
                    }
                    if in_generation_range(c, player) {
                        assert(in_generation_range(c, players@[i as int]));
                    }
                    if wanted_by(c, players@, i as int) {
                        let k = choose|k: int| 0 <= k < i && #[trigger] in_generation_range(c, players@[k]);
                        assert(in_generation_range(c, players@[k]));
                    }
                }
            }
            i = i + 1;
        }
    }
}

/// Evicts the chunks that every player has left behind.
pub struct RemoveChunks;

impl RemoveChunks {
    /// Drops every loaded chunk whose horizontal squared distance to the column
    /// of each player, given by block coordinate, exceeds `EVICTION_RADIUS`²,
    /// and hands back the coordinates of the chunks dropped.
    pub fn run(&mut self, world: &mut World, players: &Vec<Coord>) -> (r: Vec<Coord>)
        requires
            old(world).wf(),
        ensures
            final(world).wf(),
            forall|c: Coord| #[trigger]
                final(world).chunks().contains_key(c) <==> (old(world).chunks().contains_key(c)
                    && kept(c, players@)),
            forall|c: Coord| #[trigger]
                final(world).chunks().contains_key(c) ==> final(world).chunks()[c] == old(
                    world,
                ).chunks()[c],
            forall|c: Coord| #[trigger]
                r@.contains(c) <==> (old(world).chunks().contains_key(c) && !kept(c, players@)),
    {
        let ghost m = old(world).chunks();
        let positions = world.positions();
        let mut removed: Vec<Coord> = Vec::new();
        let mut i: usize = 0;
        while i < positions.len()
            invariant
                world.wf(),
                i <= positions.len(),
                positions@.no_duplicates(),
                forall|c: Coord| positions@.contains(c) <==> m.contains_key(c),
                forall|c: Coord| #[trigger]
                    world.chunks().contains_key(c) <==> (m.contains_key(c) && (kept(c, players@)
                        || !positions@.take(i as int).contains(c))),
                forall|c: Coord| #[trigger]
                    world.chunks().contains_key(c) ==> world.chunks()[c] == m[c],
                forall|c: Coord| #[trigger]
                    removed@.contains(c) <==> (positions@.take(i as int).contains(c) && !kept(
                        c,
                        players@,
                    )),
            decreases positions.len() - i,
        {
            let pos = positions[i];
            let mut keep = false;
            let mut k: usize = 0;
            while k < players.len()
                invariant
                    k <= players.len(),
                    keep == exists|kk: int| 0 <= kk < k && #[trigger] in_keep_range(pos, players@[kk]),
                decreases players.len() - k,
            {
                let col = ChunkMap::coords_to_chunk_coords(players[k]);
                let dx = pos.x as i128 - col.x as i128;
                let dz = pos.z as i128 - col.z as i128;
                assert(0 <= dx * dx <= 0x4_0000_0000_0000_0000 && 0 <= dz * dz <= 0x4_0000_0000_0000_0000) by (nonlinear_arith)
                    requires
                        -0x2_0000_0000 <= dx <= 0x2_0000_0000,
                        -0x2_0000_0000 <= dz <= 0x2_0000_0000,
                ;
                let near = dx * dx + dz * dz <= (EVICTION_RADIUS * EVICTION_RADIUS) as i128;
                assert(near == in_keep_range(pos, players@[k as int]));
                if near {
                    keep = true;
                }
                proof {
                    if keep {
                        if !near {
                            let kk = choose|kk: int| 0 <= kk < k && #[trigger] in_keep_range(pos, players@[kk]);
                            assert(0 <= kk < k + 1);
                        }
                    }
                }
                k = k + 1;
            }
            assert(keep == kept(pos, players@));
            assert(positions@.take(i + 1) =~= positions@.take(i as int).push(pos));
            assert(!positions@.take(i as int).contains(pos)) by {
                if positions@.take(i as int).contains(pos) {
                    let j = choose|j: int| 0 <= j < i && positions@.take(i as int)[j] == pos;
                    assert(positions@[j] == positions@[i as int]);
                }
            }
            proof {
                let before = positions@.take(i as int);
                let after = positions@.take(i + 1);
                assert forall|c: Coord| after.contains(c) <==> (before.contains(c) || c == pos) by {
                    if after.contains(c) {
                        let j = choose|j: int| 0 <= j < after.len() && after[j] == c;
                        if j < i {
                            assert(before[j] == c);
                        }
                    }
                    if before.contains(c) {
                        let j = choose|j: int| 0 <= j < before.len() && before[j] == c;
                        assert(after[j] == c);
                    }
                    if c == pos {
                        assert(after[i as int] == c);
                    }
                }
            }
            let ghost removed_before = removed@;
            let ghost taken_before = positions@.take(i as int);
            if !keep {
                let ghost w0 = world.chunks();
                world.remove_chunk(pos);
                assert forall|c: Coord| #[trigger]
                    world.chunks().contains_key(c) implies world.chunks()[c] == m[c] by {
                    assert(w0.contains_key(c));
                }
                removed.push(pos);
                proof {
                    assert forall|c: Coord| removed@.contains(c) <==> (removed_before.contains(c) || c == pos) by {
                        if removed@.contains(c) {
                            let j = choose|j: int| 0 <= j < removed@.len() && removed@[j] == c;
                            if j < removed_before.len() {
                                assert(removed_before[j] == c);
                            }
                        }
                        if removed_before.contains(c) {
                            let j = choose|j: int| 0 <= j < removed_before.len() && removed_before[j] == c;
                            assert(removed@[j] == c);
                        }
                        if c == pos {
                            assert(removed@[removed@.len() - 1] == c);
                        }
                    }
                }
            }
            assert forall|c: Coord| #[trigger]
                removed@.contains(c) <==> (positions@.take(i + 1).contains(c) && !kept(c, players@)) by {
                assert(removed_before.contains(c) <==> (taken_before.contains(c) && !kept(c, players@)));
                assert(positions@.take(i + 1).contains(c) <==> (taken_before.contains(c) || c == pos));
                if keep {
                    assert(removed@ == removed_before);
                }
            }
            i = i + 1;
        }
        assert(positions@.take(positions@.len() as int) =~= positions@);
        removed
    }
}

/// Whether `c` is one step from `pos` in a direction that `flags` has set.
pub open spec fn flag_step(flags: Neighbours<()>, pos: Coord, c: Coord) -> bool {
    exists|d: Dir| #[trigger] flags.slot(d).is_some() && shifted(pos, d.dx(), d.dy(), d.dz()) == Some(c)
}

/// Whether some loaded chunk has flagged its neighbour at `c`.
pub open spec fn flagged_towards(m: Map<Coord, Chunk>, c: Coord) -> bool {
    exists|p: Coord| m.contains_key(p) && #[trigger] flag_step(m[p].update_neighbours, p, c)
}

/// Whether `a` and `c` are face-adjacent.
pub open spec fn adjacent(a: Coord, c: Coord) -> bool {
    exists|d: Dir| #[trigger] shifted(a, d.dx(), d.dy(), d.dz()) == Some(c)
}

/// Whether `c` is face-adjacent to one of the first `n` of `removed`.
pub open spec fn next_to_removed(removed: Seq<Coord>, c: Coord, n: int) -> bool {
    exists|j: int| 0 <= j < n && #[trigger] adjacent(removed[j], c)
}

/// Whether one of the first `n` chunks of `order` has flagged its neighbour at `c`.
pub open spec fn flagged_among(m: Map<Coord, Chunk>, order: Seq<Coord>, c: Coord, n: int) -> bool {
    exists|j: int| 0 <= j < n && #[trigger] flag_step(m[order[j]].update_neighbours, order[j], c)
}

/// `ch` with every neighbour flag cleared.
pub open spec fn without_flags(ch: Chunk) -> Chunk {
    Chunk {
        update_neighbours: Neighbours {
            north: None,
            south: None,
            west: None,
            east: None,
            up: None,
            down: None,
        },
        ..ch
    }
}

proof fn lemma_contains_concat(a: Seq<Coord>, b: Seq<Coord>, c: Coord)
    ensures
        (a + b).contains(c) <==> (a.contains(c) || b.contains(c)),
{
    if (a + b).contains(c) {
        let j = choose|j: int| 0 <= j < (a + b).len() && (a + b)[j] == c;
        if j < a.len() {
            assert(a[j] == c);
        } else {
            assert(b[j - a.len()] == c);
        }
    }
    if a.contains(c) {
        let j = choose|j: int| 0 <= j < a.len() && a[j] == c;
        assert((a + b)[j] == c);
    }
    if b.contains(c) {
        let j = choose|j: int| 0 <= j < b.len() && b[j] == c;
        assert((a + b)[a.len() + j] == c);
    }
}

/// Sets the rebuild flag of every loaded chunk in `targets`.
fn mark_all_dirty(world: &mut World, targets: &Vec<Coord>)
    requires
        old(world).wf(),
    ensures
        final(world).wf(),
        final(world).chunks().dom() == old(world).chunks().dom(),
        forall|c: Coord| #[trigger]
            old(world).chunks().contains_key(c) ==> final(world).chunks()[c] == (Chunk {
                regenerate_mesh: old(world).chunks()[c].regenerate_mesh || targets@.contains(c),
                ..old(world).chunks()[c]
            }),
{
    let ghost m = world.chunks();
    let mut j: usize = 0;
    while j < targets.len()
        invariant
            world.wf(),
            j <= targets.len(),
            world.chunks().dom() == m.dom(),
            forall|c: Coord| #[trigger]
                m.contains_key(c) ==> world.chunks()[c] == (Chunk {
                    regenerate_mesh: m[c].regenerate_mesh || targets@.take(j as int).contains(c),
                    ..m[c]
                }),
        decreases targets.len() - j,
    {
        let q = targets[j];
        world.set_dirty(q, true);
        proof {
            assert forall|c: Coord| #[trigger]
                targets@.take(j + 1).contains(c) <==> (targets@.take(j as int).contains(c) || c == q) by {
                assert(targets@.take(j + 1) =~= targets@.take(j as int) + seq![q]);
                lemma_contains_concat(targets@.take(j as int), seq![q], c);
                if c == q {
                    assert(seq![q][0] == c);
                }
            }
        }
        j = j + 1;
    }
    assert(targets@.take(targets@.len() as int) =~= targets@);
}

/// Flags the neighbours of evicted chunks for a rebuild.
pub struct UpdateChunks;

impl UpdateChunks {
    /// Sets the rebuild flag of every loaded chunk next to one of `removed`,
    /// since the faces towards a chunk that left are now seen.
    pub fn run(&mut self, world: &mut World, removed: &Vec<Coord>)
        requires
            old(world).wf(),
        ensures
            final(world).wf(),
            final(world).chunks().dom() == old(world).chunks().dom(),
            forall|c: Coord| #[trigger]
                old(world).chunks().contains_key(c) ==> final(world).chunks()[c] == (Chunk {
                    regenerate_mesh: old(world).chunks()[c].regenerate_mesh || next_to_removed(
                        removed@,
                        c,
                        removed@.len() as int,
                    ),
                    ..old(world).chunks()[c]
                }),
    {
        let every: Neighbours<()> = Neighbours {
            north: Some(()),
            south: Some(()),
            west: Some(()),
            east: Some(()),
            up: Some(()),
            down: Some(()),
        };
        let mut targets: Vec<Coord> = Vec::new();
        let mut j: usize = 0;
        while j < removed.len()
            invariant
                j <= removed.len(),
                all_set(every),
                forall|c: Coord| #[trigger] targets@.contains(c) <==> next_to_removed(removed@, c, j as int),
            decreases removed.len() - j,
        {
            let mut part = step_targets(removed[j], &every);
            let ghost before = targets@;
            let ghost part_v = part@;
            targets.append(&mut part);
            proof {
                assert forall|c: Coord| #[trigger]
                    targets@.contains(c) <==> next_to_removed(removed@, c, j + 1) by {
                    lemma_contains_concat(before, part_v, c);
                    assert(before.contains(c) <==> next_to_removed(removed@, c, j as int));
                    assert(part_v.contains(c) <==> flag_step(every, removed@[j as int], c));
                    if flag_step(every, removed@[j as int], c) {
                        let d = choose|d: Dir| #[trigger] every.slot(d).is_some() && shifted(removed@[j as int], d.dx(), d.dy(), d.dz()) == Some(c);
                        assert(adjacent(removed@[j as int], c));
                    }
                    if adjacent(removed@[j as int], c) {
                        let d = choose|d: Dir| #[trigger] shifted(removed@[j as int], d.dx(), d.dy(), d.dz()) == Some(c);
                        assert(every.slot(d).is_some());
                        assert(flag_step(every, removed@[j as int], c));
                    }
                    if next_to_removed(removed@, c, j + 1) {
                        let k = choose|k: int| 0 <= k < j + 1 && #[trigger] adjacent(removed@[k], c);
                        if k < j {
                            assert(next_to_removed(removed@, c, j as int));
                        }
                    }
                    if next_to_removed(removed@, c, j as int) {
                        let k = choose|k: int| 0 <= k < j && #[trigger] adjacent(removed@[k], c);
                        assert(next_to_removed(removed@, c, j + 1));
                    }
                }
            }
            j = j + 1;
        }
        mark_all_dirty(world, &targets);
    }
}

/// Passes the edits of each chunk's boundary layer on to its neighbours.
pub struct UpdateNeighbouringChunks;

impl UpdateNeighbouringChunks {
    /// Sets the rebuild flag of every loaded chunk that a loaded neighbour has
    /// flagged, then clears all neighbour flags.
    pub fn run(&mut self, world: &mut World)
        requires
            old(world).wf(),
        ensures
            final(world).wf(),
            final(world).chunks().dom() == old(world).chunks().dom(),
            forall|c: Coord| #[trigger]
                old(world).chunks().contains_key(c) ==> final(world).chunks()[c] == (Chunk {
                    regenerate_mesh: old(world).chunks()[c].regenerate_mesh || flagged_towards(
                        old(world).chunks(),
                        c,
                    ),
                    ..without_flags(old(world).chunks()[c])
                }),
    {
        let ghost m = world.chunks();
        let positions = world.positions();
        let mut targets: Vec<Coord> = Vec::new();
        let mut i: usize = 0;
        while i < positions.len()
            invariant
                world.wf(),
                i <= positions.len(),
                positions@.no_duplicates(),
                forall|c: Coord| positions@.contains(c) <==> m.contains_key(c),
                world.chunks().dom() == m.dom(),
                forall|c: Coord| #[trigger]
                    m.contains_key(c) ==> world.chunks()[c] == if positions@.take(i as int).contains(c) {
                        without_flags(m[c])
                    } else {
                        m[c]
                    },
                forall|c: Coord| #[trigger]
                    targets@.contains(c) <==> flagged_among(m, positions@, c, i as int),
            decreases positions.len() - i,
        {
            let pos = positions[i];
            assert(positions@.contains(pos));
            assert(!positions@.take(i as int).contains(pos)) by {
                if positions@.take(i as int).contains(pos) {
                    let j = choose|j: int| 0 <= j < i && positions@.take(i as int)[j] == pos;
                    assert(positions@[j] == positions@[i as int]);
                }
            }
            let mut part = match world.get_chunk(pos) {
                Some(chunk) => step_targets(pos, &chunk.update_neighbours),
                None => Vec::new(),
            };
            world.clear_neighbour_flags(pos);
            let ghost before = targets@;
            let ghost part_v = part@;
            targets.append(&mut part);
            proof {
                assert forall|c: Coord| #[trigger]
                    positions@.take(i + 1).contains(c) <==> (positions@.take(i as int).contains(c) || c
                        == pos) by {
                    assert(positions@.take(i + 1) =~= positions@.take(i as int) + seq![pos]);
                    lemma_contains_concat(positions@.take(i as int), seq![pos], c);
                    if c == pos {
                        assert(seq![pos][0] == c);
                    }
                }
                assert forall|c: Coord| #[trigger]
                    targets@.contains(c) <==> flagged_among(m, positions@, c, i + 1) by {
                    lemma_contains_concat(before, part_v, c);
                    assert(before.contains(c) <==> flagged_among(m, positions@, c, i as int));
                    assert(part_v.contains(c) <==> flag_step(m[pos].update_neighbours, pos, c));
                    if flagged_among(m, positions@, c, i + 1) {
                        let j = choose|j: int|
                            0 <= j < i + 1 && #[trigger] flag_step(
                                m[positions@[j]].update_neighbours,
                                positions@[j],
                                c,
                            );
                        if j < i {
                            assert(flagged_among(m, positions@, c, i as int));
                        }
                    }
                    if flagged_among(m, positions@, c, i as int) {
                        let j = choose|j: int|
                            0 <= j < i && #[trigger] flag_step(
                                m[positions@[j]].update_neighbours,
                                positions@[j],
                                c,
                            );
                        assert(flagged_among(m, positions@, c, i + 1));
                    }
                    if part_v.contains(c) {
                        assert(flag_step(m[positions@[i as int]].update_neighbours, positions@[i as int], c));
                    }
                }
            }
            i = i + 1;
        }
        proof {
            assert(positions@.take(positions@.len() as int) =~= positions@);
            assert forall|c: Coord| #[trigger]
                targets@.contains(c) <==> flagged_towards(m, c) by {
                if flagged_towards(m, c) {
                    let p = choose|p: Coord| m.contains_key(p) && #[trigger] flag_step(m[p].update_neighbours, p, c);
                    assert(positions@.contains(p));
                    let j = choose|j: int| 0 <= j < positions@.len() && positions@[j] == p;
                    assert(flag_step(m[positions@[j]].update_neighbours, positions@[j], c));
                    assert(flagged_among(m, positions@, c, positions@.len() as int));
                }
                if targets@.contains(c) {
                    let j = choose|j: int|
                        0 <= j < positions@.len() && #[trigger] flag_step(
                            m[positions@[j]].update_neighbours,
                            positions@[j],
                            c,
                        );
                    assert(positions@.contains(positions@[j]));
                    assert(m.contains_key(positions@[j]));
                }
            }
        }
        mark_all_dirty(world, &targets);
    }
}

/// All six flags set.
pub open spec fn all_set(flags: Neighbours<()>) -> bool {
    &&& flags.north.is_some()
    &&& flags.south.is_some()
    &&& flags.west.is_some()
    &&& flags.east.is_some()
    &&& flags.up.is_some()
    &&& flags.down.is_some()
}

proof fn lemma_dir_ordinal(d: Dir)
    ensures
        0 <= d.ordinal() < 6,
        dir_of_ordinal(d.ordinal()) == d,
{
}

/// Whether `c` is one step from `pos` in one of the first `k` directions that
/// `flags` has set.
pub open spec fn flag_step_upto(flags: Neighbours<()>, pos: Coord, c: Coord, k: int) -> bool {
    exists|kk: int|
        0 <= kk < k && flags.slot(dir_of_ordinal(kk)).is_some() && #[trigger] shifted(
            pos,
            dir_of_ordinal(kk).dx(),
            dir_of_ordinal(kk).dy(),
            dir_of_ordinal(kk).dz(),
        ) == Some(c)
}

/// The coordinates one step from `pos` in each direction that `flags` has set.
fn step_targets(pos: Coord, flags: &Neighbours<()>) -> (r: Vec<Coord>)
    ensures
        forall|c: Coord| #[trigger] r@.contains(c) <==> flag_step(*flags, pos, c),
{
    let mut r: Vec<Coord> = Vec::new();
    let mut k: u8 = 0;
    while k < 6
        invariant
            k <= 6,
            forall|c: Coord| #[trigger] r@.contains(c) <==> flag_step_upto(*flags, pos, c, k as int),
        decreases 6 - k,
    {
        let d = Dir::from_index(k);
        let ghost before = r@;
        let set = flags.get(d).is_some();
        let step = pos.step(d);
        if set {
            if let Some(q) = step {
                r.push(q);
            }
        }
        proof {
            assert forall|c: Coord| #[trigger]
                r@.contains(c) <==> flag_step_upto(*flags, pos, c, k + 1) by {
                assert(before.contains(c) <==> flag_step_upto(*flags, pos, c, k as int));
                if r@.contains(c) {
                    let j = choose|j: int| 0 <= j < r@.len() && r@[j] == c;
                    if j < before.len() {
                        assert(before[j] == c);
                        assert(before.contains(c));
                        let kk = choose|kk: int|
                            0 <= kk < k && flags.slot(dir_of_ordinal(kk)).is_some() && #[trigger] shifted(
                                pos,
                                dir_of_ordinal(kk).dx(),
                                dir_of_ordinal(kk).dy(),
                                dir_of_ordinal(kk).dz(),
                            ) == Some(c);
                        assert(0 <= kk < k + 1);
                    } else {
                        assert(shifted(
                            pos,
                            dir_of_ordinal(k as int).dx(),
                            dir_of_ordinal(k as int).dy(),
                            dir_of_ordinal(k as int).dz(),
                        ) == Some(c));
                    }
                }
                if flag_step_upto(*flags, pos, c, k + 1) {
                    let kk = choose|kk: int|
                        0 <= kk < k + 1 && flags.slot(dir_of_ordinal(kk)).is_some() && #[trigger] shifted(
                            pos,
                            dir_of_ordinal(kk).dx(),
                            dir_of_ordinal(kk).dy(),
                            dir_of_ordinal(kk).dz(),
                        ) == Some(c);
                    if kk < k {
                        assert(flag_step_upto(*flags, pos, c, k as int));
                        assert(before.contains(c));
                        let j = choose|j: int| 0 <= j < before.len() && before[j] == c;
                        assert(r@[j] == c);
                    } else {
                        assert(r@[r@.len() - 1] == c);
                    }
                }
            }
        }
        k = k + 1;
    }
    proof {
        assert forall|c: Coord| #[trigger] r@.contains(c) <==> flag_step(*flags, pos, c) by {
            if flag_step(*flags, pos, c) {
                let d = choose|d: Dir| #[trigger] flags.slot(d).is_some() && shifted(pos, d.dx(), d.dy(), d.dz()) == Some(c);
                lemma_dir_ordinal(d);
                assert(flags.slot(dir_of_ordinal(d.ordinal())).is_some());
                assert(flag_step_upto(*flags, pos, c, 6));
            }
            if r@.contains(c) {
                assert(flag_step_upto(*flags, pos, c, 6));
                let kk = choose|kk: int|
                    0 <= kk < 6 && flags.slot(dir_of_ordinal(kk)).is_some() && #[trigger] shifted(
                        pos,
                        dir_of_ordinal(kk).dx(),
                        dir_of_ordinal(kk).dy(),
                        dir_of_ordinal(kk).dz(),
                    ) == Some(c);
                assert(flags.slot(dir_of_ordinal(kk)).is_some());
            }
        }
    }
    r
}

} // verus!
