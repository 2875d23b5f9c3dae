use vstd::prelude::*;

use crate::blocks::{Atlas, Block, Side, BLOCK_KINDS, UVS_PER_BLOCK};
use crate::chunk::Chunk;
use crate::coord::{LocalCoord, CHUNK_SIZE};
use crate::dir::{dir_of_ordinal, Dir};
use crate::neighbours::Neighbours;
use crate::vertex::{field_dir, lemma_pack_round_trip, packed, ChunkVertex};

verus! {

/// The block of `c` at `(x, y, z)`.
pub open spec fn cell(c: Chunk, x: int, y: int, z: int) -> Block {
    c.cells()[x * 256 + y * 16 + z]
}

pub open spec fn in_chunk(x: int, y: int, z: int) -> bool {
    0 <= x < CHUNK_SIZE && 0 <= y < CHUNK_SIZE && 0 <= z < CHUNK_SIZE
}

/// The neighbours themselves rather than references to them.
pub open spec fn owned(n: Neighbours<&Chunk>) -> Neighbours<Chunk> {
    Neighbours {
        north: match n.north {
            Some(c) => Some(*c),
            None => None,
        },
        south: match n.south {
            Some(c) => Some(*c),
            None => None,
        },
        west: match n.west {
            Some(c) => Some(*c),
            None => None,
        },
        east: match n.east {
            Some(c) => Some(*c),
            None => None,
        },
        up: match n.up {
            Some(c) => Some(*c),
            None => None,
        },
        down: match n.down {
            Some(c) => Some(*c),
            None => None,
        },
    }
}

/// Every loaded neighbour is a well-formed chunk.
pub open spec fn neighbours_wf(n: Neighbours<Chunk>) -> bool {
    forall|d: Dir| #[trigger] n.slot(d).is_some() ==> n.slot(d).unwrap().wf()
}

/// Whether the face of cell `(x, y, z)` towards `d` can be seen: the cell next
/// to it is empty. Next to a face of the chunk that cell belongs to the loaded
/// neighbour on that side; where none is loaded, the face is seen.
pub open spec fn face_visible(c: Chunk, n: Neighbours<Chunk>, x: int, y: int, z: int, d: Dir) -> bool {
    let (ax, ay, az) = (x + d.dx(), y + d.dy(), z + d.dz());
    if in_chunk(ax, ay, az) {
        cell(c, ax, ay, az) == Block::Empty
    } else {
        match n.slot(d) {
            Some(other) => cell(other, ax % 16, ay % 16, az % 16) == Block::Empty,
            None => true,
        }
    }
}

/// The texture class that a face towards `d` shows.
pub open spec fn face_class(d: Dir) -> Side {
    match d {
        Dir::Up => Side::Top,
        Dir::Down => Side::Base,
        _ => Side::Side,
    }
}

/// The six corners of the two triangles of a face towards `d`: the corner's
/// offset from the cell's origin, and which of the texture's four UV corners
/// it takes.
pub open spec fn face_corners(d: Dir) -> Seq<(int, int, int, int)> {
    match d {
        Dir::North => seq![(0, 0, 1, 2), (1, 0, 1, 3), (1, 1, 1, 1), (0, 0, 1, 2), (1, 1, 1, 1), (0, 1, 1, 0)],
        Dir::South => seq![(0, 0, 0, 2), (1, 1, 0, 1), (1, 0, 0, 3), (0, 0, 0, 2), (0, 1, 0, 0), (1, 1, 0, 1)],
        Dir::East => seq![(1, 0, 0, 2), (1, 1, 1, 1), (1, 0, 1, 3), (1, 0, 0, 2), (1, 1, 0, 0), (1, 1, 1, 1)],
        Dir::West => seq![(0, 0, 0, 2), (0, 0, 1, 3), (0, 1, 1, 1), (0, 0, 0, 2), (0, 1, 1, 1), (0, 1, 0, 0)],
        Dir::Up => seq![(0, 1, 0, 0), (1, 1, 1, 3), (1, 1, 0, 2), (0, 1, 0, 0), (0, 1, 1, 1), (1, 1, 1, 3)],
        Dir::Down => seq![(0, 0, 0, 0), (1, 0, 0, 2), (1, 0, 1, 3), (0, 0, 0, 0), (1, 0, 1, 3), (0, 0, 1, 1)],
    }
}

/// The packed vertices of the face of a cell of kind `b` at `(x, y, z)` towards `d`.
pub open spec fn face_vertices(b: Block, x: int, y: int, z: int, d: Dir) -> Seq<u32> {
    Seq::new(
        6,
        |k: int|
            {
                let (ox, oy, oz, u) = face_corners(d)[k];
                packed(
                    (x + ox) as u32,
                    (y + oy) as u32,
                    (z + oz) as u32,
                    d.ordinal() as u32,
                    (UVS_PER_BLOCK * b.tag() + face_class(d).uv_offset() + u) as u32,
                )
            },
    )
}

/// What the face of cell `(x, y, z)` towards `d` adds to the mesh: nothing for an
/// empty cell or a hidden face, else its six vertices.
pub open spec fn face_out(c: Chunk, n: Neighbours<Chunk>, x: int, y: int, z: int, d: Dir) -> Seq<u32> {
    if cell(c, x, y, z) != Block::Empty && face_visible(c, n, x, y, z, d) {
        face_vertices(cell(c, x, y, z), x, y, z, d)
    } else {
        seq![]
    }
}

/// The faces of cell `(x, y, z)` in the first `k` directions, in ordinal order.
pub open spec fn mesh_dirs(c: Chunk, n: Neighbours<Chunk>, x: int, y: int, z: int, k: int) -> Seq<u32>
    decreases k,
{
    if k <= 0 {
        seq![]
    } else {
        mesh_dirs(c, n, x, y, z, k - 1) + face_out(c, n, x, y, z, dir_of_ordinal(k - 1))
    }
}

/// The faces of the first `k` cells of row `(x, y)`.
pub open spec fn mesh_row(c: Chunk, n: Neighbours<Chunk>, x: int, y: int, k: int) -> Seq<u32>
    decreases k,
{
    if k <= 0 {
        seq![]
    } else {
        mesh_row(c, n, x, y, k - 1) + mesh_dirs(c, n, x, y, k - 1, 6)
    }
}

/// The faces of the first `k` rows of slab `x`.
pub open spec fn mesh_slab(c: Chunk, n: Neighbours<Chunk>, x: int, k: int) -> Seq<u32>
    decreases k,
{
    if k <= 0 {
        seq![]
    } else {
        mesh_slab(c, n, x, k - 1) + mesh_row(c, n, x, k - 1, 16)
    }
}

/// The faces of the first `k` slabs.
pub open spec fn mesh_slabs(c: Chunk, n: Neighbours<Chunk>, k: int) -> Seq<u32>
    decreases k,
{
    if k <= 0 {
        seq![]
    } else {
        mesh_slabs(c, n, k - 1) + mesh_slab(c, n, k - 1, 16)
    }
}

/// The mesh of a chunk: the visible faces of every cell, cells in x, y, z order
/// and each cell's faces in direction order.
pub open spec fn chunk_mesh(c: Chunk, n: Neighbours<Chunk>) -> Seq<u32> {
    mesh_slabs(c, n, 16)
}

/// Whether `part` stands somewhere in `s` as a contiguous run.
pub open spec fn occurs_in(s: Seq<u32>, part: Seq<u32>) -> bool {
    exists|i: int| 0 <= i && i + part.len() <= s.len() && #[trigger] s.subrange(i, i + part.len()) == part
}

/// Every cell of `c` holds a block.
pub open spec fn solid(c: Chunk) -> bool {
    forall|i: int| 0 <= i < c.cells().len() ==> #[trigger] c.cells()[i] != Block::Empty
}

/// The packed bits of a sequence of vertices.
pub open spec fn bits_of(s: Seq<ChunkVertex>) -> Seq<u32> {
    s.map_values(|v: ChunkVertex| v.bits())
}

proof fn lemma_occurs_left(a: Seq<u32>, b: Seq<u32>, part: Seq<u32>)
    requires
        occurs_in(a, part),
    ensures
        occurs_in(a + b, part),
{
    let i = choose|i: int| 0 <= i && i + part.len() <= a.len() && #[trigger] a.subrange(i, i + part.len()) == part;
    assert((a + b).subrange(i, i + part.len()) =~= a.subrange(i, i + part.len()));
}

proof fn lemma_occurs_right(a: Seq<u32>, b: Seq<u32>, part: Seq<u32>)
    requires
        occurs_in(b, part),
    ensures
        occurs_in(a + b, part),
{
    let i = choose|i: int| 0 <= i && i + part.len() <= b.len() && #[trigger] b.subrange(i, i + part.len()) == part;
    assert((a + b).subrange(a.len() + i, a.len() + i + part.len()) =~= b.subrange(i, i + part.len()));
}

proof fn lemma_occurs_trans(s: Seq<u32>, t: Seq<u32>, part: Seq<u32>)
    requires
        occurs_in(s, t),
        occurs_in(t, part),
    ensures
        occurs_in(s, part),
{
    let i = choose|i: int| 0 <= i && i + t.len() <= s.len() && #[trigger] s.subrange(i, i + t.len()) == t;
    let j = choose|j: int| 0 <= j && j + part.len() <= t.len() && #[trigger] t.subrange(j, j + part.len()) == part;
    assert(s.subrange(i + j, i + j + part.len()) =~= t.subrange(j, j + part.len()));
}

proof fn lemma_occurs_self(s: Seq<u32>)
    ensures
        occurs_in(s, s),
{
    assert(s.subrange(0, 0 + s.len() as int) =~= s);
}

proof fn lemma_dirs_hold_face(c: Chunk, n: Neighbours<Chunk>, x: int, y: int, z: int, j: int, k: int)
    requires
        0 <= j < k,
    ensures
        occurs_in(mesh_dirs(c, n, x, y, z, k), face_out(c, n, x, y, z, dir_of_ordinal(j))),
    decreases k,
{
    if j == k - 1 {
        lemma_occurs_self(face_out(c, n, x, y, z, dir_of_ordinal(j)));
        lemma_occurs_right(mesh_dirs(c, n, x, y, z, k - 1), face_out(c, n, x, y, z, dir_of_ordinal(j)), face_out(c, n, x, y, z, dir_of_ordinal(j)));
    } else {
        lemma_dirs_hold_face(c, n, x, y, z, j, k - 1);
        lemma_occurs_left(mesh_dirs(c, n, x, y, z, k - 1), face_out(c, n, x, y, z, dir_of_ordinal(k - 1)), face_out(c, n, x, y, z, dir_of_ordinal(j)));
    }
}

proof fn lemma_row_holds_cell(c: Chunk, n: Neighbours<Chunk>, x: int, y: int, z: int, k: int)
    requires
        0 <= z < k,
    ensures
        occurs_in(mesh_row(c, n, x, y, k), mesh_dirs(c, n, x, y, z, 6)),
    decreases k,
{
    if z == k - 1 {
        lemma_occurs_self(mesh_dirs(c, n, x, y, z, 6));
        lemma_occurs_right(mesh_row(c, n, x, y, k - 1), mesh_dirs(c, n, x, y, z, 6), mesh_dirs(c, n, x, y, z, 6));
    } else {
        lemma_row_holds_cell(c, n, x, y, z, k - 1);
        lemma_occurs_left(mesh_row(c, n, x, y, k - 1), mesh_dirs(c, n, x, y, k - 1, 6), mesh_dirs(c, n, x, y, z, 6));
    }
}

proof fn lemma_slab_holds_row(c: Chunk, n: Neighbours<Chunk>, x: int, y: int, k: int)
    requires
        0 <= y < k,
    ensures
        occurs_in(mesh_slab(c, n, x, k), mesh_row(c, n, x, y, 16)),
    decreases k,
{
    if y == k - 1 {
        lemma_occurs_self(mesh_row(c, n, x, y, 16));
        lemma_occurs_right(mesh_slab(c, n, x, k - 1), mesh_row(c, n, x, y, 16), mesh_row(c, n, x, y, 16));
    } else {
        lemma_slab_holds_row(c, n, x, y, k - 1);
        lemma_occurs_left(mesh_slab(c, n, x, k - 1), mesh_row(c, n, x, k - 1, 16), mesh_row(c, n, x, y, 16));
    }
}

proof fn lemma_slabs_hold_slab(c: Chunk, n: Neighbours<Chunk>, x: int, k: int)
    requires
        0 <= x < k,
    ensures
        occurs_in(mesh_slabs(c, n, k), mesh_slab(c, n, x, 16)),
    decreases k,
{
    if x == k - 1 {
        lemma_occurs_self(mesh_slab(c, n, x, 16));
        lemma_occurs_right(mesh_slabs(c, n, k - 1), mesh_slab(c, n, x, 16), mesh_slab(c, n, x, 16));
    } else {
        lemma_slabs_hold_slab(c, n, x, k - 1);
        lemma_occurs_left(mesh_slabs(c, n, k - 1), mesh_slab(c, n, k - 1, 16), mesh_slab(c, n, x, 16));
    }
}

/// What each face of each cell contributes stands in the chunk's mesh.
pub proof fn lemma_mesh_holds_face(c: Chunk, n: Neighbours<Chunk>, x: int, y: int, z: int, d: Dir)
    requires
        in_chunk(x, y, z),
    ensures
        occurs_in(chunk_mesh(c, n), face_out(c, n, x, y, z, d)),
{
    let j = match d {
        Dir::North => 0int,
        Dir::South => 1,
        Dir::East => 2,
        Dir::West => 3,
        Dir::Up => 4,
        Dir::Down => 5,
    };
    assert(dir_of_ordinal(j) == d);
    lemma_dirs_hold_face(c, n, x, y, z, j, 6);
    lemma_row_holds_cell(c, n, x, y, z, 16);
    lemma_occurs_trans(mesh_row(c, n, x, y, 16), mesh_dirs(c, n, x, y, z, 6), face_out(c, n, x, y, z, d));
    lemma_slab_holds_row(c, n, x, y, 16);
    lemma_occurs_trans(mesh_slab(c, n, x, 16), mesh_row(c, n, x, y, 16), face_out(c, n, x, y, z, d));
    lemma_slabs_hold_slab(c, n, x, 16);
    lemma_occurs_trans(mesh_slabs(c, n, 16), mesh_slab(c, n, x, 16), face_out(c, n, x, y, z, d));
}

/// On a solid chunk, every face towards a side with no loaded neighbour
/// stands in the mesh with its six vertices; once a solid neighbour is loaded
/// on that side, none of those faces adds anything to the mesh.
pub proof fn lemma_boundary_visibility(c: Chunk, n: Neighbours<Chunk>, d: Dir)
    requires
        c.wf(),
        solid(c),
    ensures
        n.slot(d).is_none() ==> forall|x: int, y: int, z: int|
            in_chunk(x, y, z) && !in_chunk(x + d.dx(), y + d.dy(), z + d.dz()) ==> {
                &&& occurs_in(chunk_mesh(c, n), #[trigger] face_vertices(cell(c, x, y, z), x, y, z, d))
                &&& face_vertices(cell(c, x, y, z), x, y, z, d).len() == 6
            },
        n.slot(d).is_some() && n.slot(d).unwrap().wf() && solid(n.slot(d).unwrap()) ==> forall|
            x: int,
            y: int,
            z: int,
        |
            in_chunk(x, y, z) && !in_chunk(x + d.dx(), y + d.dy(), z + d.dz()) ==> #[trigger] face_out(
                c,
                n,
                x,
                y,
                z,
                d,
            ) == Seq::<u32>::empty(),
{
    if n.slot(d).is_none() {
        assert forall|x: int, y: int, z: int|
            in_chunk(x, y, z) && !in_chunk(x + d.dx(), y + d.dy(), z + d.dz()) implies {
                &&& occurs_in(chunk_mesh(c, n), #[trigger] face_vertices(cell(c, x, y, z), x, y, z, d))
                &&& face_vertices(cell(c, x, y, z), x, y, z, d).len() == 6
            } by {
            assert(c.cells()[x * 256 + y * 16 + z] != Block::Empty);
            lemma_mesh_holds_face(c, n, x, y, z, d);
            assert(face_visible(c, n, x, y, z, d));
            assert(face_out(c, n, x, y, z, d) == face_vertices(cell(c, x, y, z), x, y, z, d));
        }
    }
    if n.slot(d).is_some() && n.slot(d).unwrap().wf() && solid(n.slot(d).unwrap()) {
        assert forall|x: int, y: int, z: int|
            in_chunk(x, y, z) && !in_chunk(x + d.dx(), y + d.dy(), z + d.dz()) implies #[trigger] face_out(
                c,
                n,
                x,
                y,
                z,
                d,
            ) == Seq::<u32>::empty() by {
            let other = n.slot(d).unwrap();
            let (ax, ay, az) = (x + d.dx(), y + d.dy(), z + d.dz());
            assert(0 <= ax % 16 < 16 && 0 <= ay % 16 < 16 && 0 <= az % 16 < 16);
            assert(other.cells()[(ax % 16) * 256 + (ay % 16) * 16 + az % 16] != Block::Empty);
        }
    }
}

/// How many of the packed vertices of `s` have normal `n`.
pub open spec fn count_normal(s: Seq<u32>, n: int) -> int
    decreases s.len(),
{
    if s.len() == 0 {
        0
    } else {
        count_normal(s.drop_last(), n) + if field_dir(s.last()) == n {
            1int
        } else {
            0
        }
    }
}

/// Whether cell `(x, y, z)` lies on the chunk's face towards `d`.
pub open spec fn on_boundary(x: int, y: int, z: int, d: Dir) -> bool {
    !in_chunk(x + d.dx(), y + d.dy(), z + d.dz())
}

proof fn lemma_count_concat(a: Seq<u32>, b: Seq<u32>, n: int)
    ensures
        count_normal(a + b, n) == count_normal(a, n) + count_normal(b, n),
    decreases b.len(),
{
    if b.len() > 0 {
        assert((a + b).drop_last() =~= a + b.drop_last());
        assert((a + b).last() == b.last());
        lemma_count_concat(a, b.drop_last(), n);
    } else {
        assert(a + b =~= a);
    }
}

proof fn lemma_count_uniform(s: Seq<u32>, m: int, n: int)
    requires
        forall|k: int| 0 <= k < s.len() ==> field_dir(#[trigger] s[k]) == m,
    ensures
        count_normal(s, n) == if m == n {
            s.len() as int
        } else {
            0
        },
    decreases s.len(),
{
    if s.len() > 0 {
        lemma_count_uniform(s.drop_last(), m, n);
    }
}

proof fn lemma_face_vertices_normal(b: Block, x: int, y: int, z: int, d: Dir)
    requires
        in_chunk(x, y, z),
    ensures
        forall|k: int| 0 <= k < 6 ==> field_dir(#[trigger] face_vertices(b, x, y, z, d)[k]) == d.ordinal(),
{
    assert forall|k: int| 0 <= k < 6 implies field_dir(#[trigger] face_vertices(b, x, y, z, d)[k]) == d.ordinal() by {
        let (ox, oy, oz, u) = face_corners(d)[k];
        assert(0 <= ox <= 1 && 0 <= oy <= 1 && 0 <= oz <= 1 && 0 <= u <= 3);
        let uv = UVS_PER_BLOCK * b.tag() + face_class(d).uv_offset() + u;
        assert(0 <= uv < 2048);
        lemma_pack_round_trip(
            (x + ox) as u32,
            (y + oy) as u32,
            (z + oz) as u32,
            d.ordinal() as u32,
            uv as u32,
        );
    }
}

/// The setting of the boundary rule's two cases: a solid chunk whose neighbour
/// towards `d` is either not loaded (`open`) or loaded and solid.
pub open spec fn boundary_case(c: Chunk, n: Neighbours<Chunk>, d: Dir, open: bool) -> bool {
    &&& c.wf()
    &&& solid(c)
    &&& open ==> n.slot(d).is_none()
    &&& !open ==> n.slot(d).is_some() && n.slot(d).unwrap().wf() && solid(n.slot(d).unwrap())
}

proof fn lemma_face_count(c: Chunk, n: Neighbours<Chunk>, d: Dir, open: bool, x: int, y: int, z: int, e: Dir)
    requires
        boundary_case(c, n, d, open),
        in_chunk(x, y, z),
    ensures
        count_normal(face_out(c, n, x, y, z, e), d.ordinal()) == if e == d && open && on_boundary(x, y, z, d) {
            6int
        } else {
            0
        },
{
    assert(c.cells()[x * 256 + y * 16 + z] != Block::Empty);
    let fv = face_vertices(cell(c, x, y, z), x, y, z, e);
    lemma_face_vertices_normal(cell(c, x, y, z), x, y, z, e);
    lemma_count_uniform(fv, e.ordinal(), d.ordinal());
    if e == d {
        let (ax, ay, az) = (x + d.dx(), y + d.dy(), z + d.dz());
        if in_chunk(ax, ay, az) {
            assert(c.cells()[ax * 256 + ay * 16 + az] != Block::Empty);
        } else if !open {
            let other = n.slot(d).unwrap();
            assert(0 <= ax % 16 < 16 && 0 <= ay % 16 < 16 && 0 <= az % 16 < 16);
            assert(other.cells()[(ax % 16) * 256 + (ay % 16) * 16 + az % 16] != Block::Empty);
        }
    } else {
        assert(e.ordinal() != d.ordinal());
    }
}

proof fn lemma_cell_count(c: Chunk, n: Neighbours<Chunk>, d: Dir, open: bool, x: int, y: int, z: int, k: int)
    requires
        boundary_case(c, n, d, open),
        in_chunk(x, y, z),
        0 <= k <= 6,
    ensures
        count_normal(mesh_dirs(c, n, x, y, z, k), d.ordinal()) == if d.ordinal() < k && open
            && on_boundary(x, y, z, d) {
            6int
        } else {
            0
        },
    decreases k,
{
    if k > 0 {
        lemma_cell_count(c, n, d, open, x, y, z, k - 1);
        let e = dir_of_ordinal(k - 1);
        lemma_face_count(c, n, d, open, x, y, z, e);
        lemma_count_concat(mesh_dirs(c, n, x, y, z, k - 1), face_out(c, n, x, y, z, e), d.ordinal());
        assert((e == d) == (d.ordinal() == k - 1));
    }
}

/// Boundary cells among the first `k` cells of row `(x, y)`.
pub open spec fn row_boundary(x: int, y: int, k: int, d: Dir) -> int {
    match d {
        Dir::North => if k >= 16 { 1 } else { 0 },
        Dir::South => if k >= 1 { 1 } else { 0 },
        Dir::East => if x == 15 { k } else { 0 },
        Dir::West => if x == 0 { k } else { 0 },
        Dir::Up => if y == 15 { k } else { 0 },
        Dir::Down => if y == 0 { k } else { 0 },
    }
}

/// Boundary cells among the first `k` rows of slab `x`.
pub open spec fn slab_boundary(x: int, k: int, d: Dir) -> int {
    match d {
        Dir::North => k,
        Dir::South => k,
        Dir::East => if x == 15 { 16 * k } else { 0 },
        Dir::West => if x == 0 { 16 * k } else { 0 },
        Dir::Up => if k >= 16 { 16 } else { 0 },
        Dir::Down => if k >= 1 { 16 } else { 0 },
    }
}

/// Boundary cells among the first `k` slabs.
pub open spec fn slabs_boundary(k: int, d: Dir) -> int {
    match d {
        Dir::North => 16 * k,
        Dir::South => 16 * k,
        Dir::East => if k >= 16 { 256 } else { 0 },
        Dir::West => if k >= 1 { 256 } else { 0 },
        Dir::Up => 16 * k,
        Dir::Down => 16 * k,
    }
}

proof fn lemma_row_count(c: Chunk, n: Neighbours<Chunk>, d: Dir, open: bool, x: int, y: int, k: int)
    requires
        boundary_case(c, n, d, open),
        0 <= x < 16,
        0 <= y < 16,
        0 <= k <= 16,
    ensures
        count_normal(mesh_row(c, n, x, y, k), d.ordinal()) == if open {
            6 * row_boundary(x, y, k, d)
        } else {
            0
        },
    decreases k,
{
    if k > 0 {
        lemma_row_count(c, n, d, open, x, y, k - 1);
        lemma_cell_count(c, n, d, open, x, y, k - 1, 6);
        lemma_count_concat(mesh_row(c, n, x, y, k - 1), mesh_dirs(c, n, x, y, k - 1, 6), d.ordinal());
    }
}

proof fn lemma_slab_count(c: Chunk, n: Neighbours<Chunk>, d: Dir, open: bool, x: int, k: int)
    requires
        boundary_case(c, n, d, open),
        0 <= x < 16,
        0 <= k <= 16,
    ensures
        count_normal(mesh_slab(c, n, x, k), d.ordinal()) == if open {
            6 * slab_boundary(x, k, d)
        } else {
            0
        },
    decreases k,
{
    if k > 0 {
        lemma_slab_count(c, n, d, open, x, k - 1);
        lemma_row_count(c, n, d, open, x, k - 1, 16);
        lemma_count_concat(mesh_slab(c, n, x, k - 1), mesh_row(c, n, x, k - 1, 16), d.ordinal());
    }
}

proof fn lemma_slabs_count(c: Chunk, n: Neighbours<Chunk>, d: Dir, open: bool, k: int)
    requires
        boundary_case(c, n, d, open),
        0 <= k <= 16,
    ensures
        count_normal(mesh_slabs(c, n, k), d.ordinal()) == if open {
            6 * slabs_boundary(k, d)
        } else {
            0
        },
    decreases k,
{
    if k > 0 {
        lemma_slabs_count(c, n, d, open, k - 1);
        lemma_slab_count(c, n, d, open, k - 1, 16);
        lemma_count_concat(mesh_slabs(c, n, k - 1), mesh_slab(c, n, k - 1, 16), d.ordinal());
    }
}

/// The normals of a solid chunk's mesh towards one side: with no neighbour
/// loaded there, exactly the 256 faces of the boundary layer show, 1536
/// vertices with that normal; with a solid neighbour loaded there, no vertex
/// of the mesh has that normal at all.
pub proof fn lemma_boundary_normal_count(c: Chunk, n: Neighbours<Chunk>, d: Dir)
    requires
        c.wf(),
        solid(c),
    ensures
        n.slot(d).is_none() ==> count_normal(chunk_mesh(c, n), d.ordinal()) == 1536,
        n.slot(d).is_some() && n.slot(d).unwrap().wf() && solid(n.slot(d).unwrap()) ==> count_normal(
            chunk_mesh(c, n),
            d.ordinal(),
        ) == 0,
{
    if n.slot(d).is_none() {
        lemma_slabs_count(c, n, d, true, 16);
    }
    if n.slot(d).is_some() && n.slot(d).unwrap().wf() && solid(n.slot(d).unwrap()) {
        lemma_slabs_count(c, n, d, false, 16);
    }
}

/// The two sets of neighbours are loaded on the same sides with the same blocks.
pub open spec fn same_neighbour_cells(a: Neighbours<Chunk>, b: Neighbours<Chunk>) -> bool {
    forall|d: Dir|
        #[trigger] a.slot(d).is_some() == b.slot(d).is_some() && (a.slot(d).is_some() ==> a.slot(
            d,
        ).unwrap().cells() == b.slot(d).unwrap().cells())
}

proof fn lemma_dirs_same(c1: Chunk, n1: Neighbours<Chunk>, c2: Chunk, n2: Neighbours<Chunk>, x: int, y: int, z: int, k: int)
    requires
        c1.cells() == c2.cells(),
        same_neighbour_cells(n1, n2),
    ensures
        mesh_dirs(c1, n1, x, y, z, k) == mesh_dirs(c2, n2, x, y, z, k),
    decreases k,
{
    if k > 0 {
        lemma_dirs_same(c1, n1, c2, n2, x, y, z, k - 1);
        let d = dir_of_ordinal(k - 1);
        assert(n1.slot(d).is_some() == n2.slot(d).is_some());
        assert(face_out(c1, n1, x, y, z, d) == face_out(c2, n2, x, y, z, d));
    }
}

proof fn lemma_row_same(c1: Chunk, n1: Neighbours<Chunk>, c2: Chunk, n2: Neighbours<Chunk>, x: int, y: int, k: int)
    requires
        c1.cells() == c2.cells(),
        same_neighbour_cells(n1, n2),
    ensures
        mesh_row(c1, n1, x, y, k) == mesh_row(c2, n2, x, y, k),
    decreases k,
{
    if k > 0 {
        lemma_row_same(c1, n1, c2, n2, x, y, k - 1);
        lemma_dirs_same(c1, n1, c2, n2, x, y, k - 1, 6);
    }
}

proof fn lemma_slab_same(c1: Chunk, n1: Neighbours<Chunk>, c2: Chunk, n2: Neighbours<Chunk>, x: int, k: int)
    requires
        c1.cells() == c2.cells(),
        same_neighbour_cells(n1, n2),
    ensures
        mesh_slab(c1, n1, x, k) == mesh_slab(c2, n2, x, k),
    decreases k,
{
    if k > 0 {
        lemma_slab_same(c1, n1, c2, n2, x, k - 1);
        lemma_row_same(c1, n1, c2, n2, x, k - 1, 16);
    }
}

proof fn lemma_slabs_same(c1: Chunk, n1: Neighbours<Chunk>, c2: Chunk, n2: Neighbours<Chunk>, k: int)
    requires
        c1.cells() == c2.cells(),
        same_neighbour_cells(n1, n2),
    ensures
        mesh_slabs(c1, n1, k) == mesh_slabs(c2, n2, k),
    decreases k,
{
    if k > 0 {
        lemma_slabs_same(c1, n1, c2, n2, k - 1);
        lemma_slab_same(c1, n1, c2, n2, k - 1, 16);
    }
}

/// A chunk's mesh depends on its blocks and its neighbours' blocks alone: its
/// position and flags, and those of its neighbours, change nothing. Building
/// it again while no block changed gives the same mesh.
pub proof fn lemma_mesh_depends_on_blocks(c1: Chunk, n1: Neighbours<Chunk>, c2: Chunk, n2: Neighbours<Chunk>)
    requires
        c1.cells() == c2.cells(),
        same_neighbour_cells(n1, n2),
    ensures
        chunk_mesh(c1, n1) == chunk_mesh(c2, n2),
{
    lemma_slabs_same(c1, n1, c2, n2, 16);
}

/// The six corners of a face towards `d`, as `face_corners` gives them.
fn corners_of(d: Dir) -> (r: [[u8; 4]; 6])
    ensures
        forall|k: int|
            0 <= k < 6 ==> {
                &&& r@[k]@[0] == (#[trigger] face_corners(d)[k]).0
                &&& r@[k]@[1] == face_corners(d)[k].1
                &&& r@[k]@[2] == face_corners(d)[k].2
                &&& r@[k]@[3] == face_corners(d)[k].3
            },
{
    let r = match d {
        Dir::North => [[0, 0, 1, 2], [1, 0, 1, 3], [1, 1, 1, 1], [0, 0, 1, 2], [1, 1, 1, 1], [0, 1, 1, 0]],
        Dir::South => [[0, 0, 0, 2], [1, 1, 0, 1], [1, 0, 0, 3], [0, 0, 0, 2], [0, 1, 0, 0], [1, 1, 0, 1]],
        Dir::East => [[1, 0, 0, 2], [1, 1, 1, 1], [1, 0, 1, 3], [1, 0, 0, 2], [1, 1, 0, 0], [1, 1, 1, 1]],
        Dir::West => [[0, 0, 0, 2], [0, 0, 1, 3], [0, 1, 1, 1], [0, 0, 0, 2], [0, 1, 1, 1], [0, 1, 0, 0]],
        Dir::Up => [[0, 1, 0, 0], [1, 1, 1, 3], [1, 1, 0, 2], [0, 1, 0, 0], [0, 1, 1, 1], [1, 1, 1, 3]],
        Dir::Down => [[0, 0, 0, 0], [1, 0, 0, 2], [1, 0, 1, 3], [0, 0, 0, 0], [1, 0, 1, 3], [0, 0, 1, 1]],
    };
    r
}

/// Whether the cell next to `(x, y, z)` towards `dir` lies in the same chunk
/// and is occupied, which hides that face.
pub fn check_discard(dir: Dir, x: u16, y: u16, z: u16, chunk: &Chunk) -> (r: bool)
    requires
        chunk.wf(),
        x < CHUNK_SIZE,
        y < CHUNK_SIZE,
        z < CHUNK_SIZE,
    ensures
        r == (in_chunk(x + dir.dx(), y + dir.dy(), z + dir.dz()) && cell(
            *chunk,
            x + dir.dx(),
            y + dir.dy(),
            z + dir.dz(),
        ) != Block::Empty),
{
    let last = CHUNK_SIZE as u16 - 1;
    match dir {
        Dir::North => z < last && chunk.get_block(LocalCoord { x, y, z: z + 1 }) != Block::Empty,
        Dir::South => z > 0 && chunk.get_block(LocalCoord { x, y, z: z - 1 }) != Block::Empty,
        Dir::East => x < last && chunk.get_block(LocalCoord { x: x + 1, y, z }) != Block::Empty,
        Dir::West => x > 0 && chunk.get_block(LocalCoord { x: x - 1, y, z }) != Block::Empty,
        Dir::Up => y < last && chunk.get_block(LocalCoord { x, y: y + 1, z }) != Block::Empty,
        Dir::Down => y > 0 && chunk.get_block(LocalCoord { x, y: y - 1, z }) != Block::Empty,
    }
}

/// Whether the face of cell `(x, y, z)` towards `dir` is seen: hidden by an
/// occupied cell of the chunk, or of the loaded neighbour across the chunk's face.
pub fn face_is_visible(
    chunk: &Chunk,
    neighbours: &Neighbours<&Chunk>,
    x: u16,
    y: u16,
    z: u16,
    dir: Dir,
) -> (r: bool)
    requires
        chunk.wf(),
        neighbours_wf(owned(*neighbours)),
        x < CHUNK_SIZE,
        y < CHUNK_SIZE,
        z < CHUNK_SIZE,
    ensures
        r == face_visible(*chunk, owned(*neighbours), x as int, y as int, z as int, dir),
{
    let last = CHUNK_SIZE as u16 - 1;
    let mut discard = check_discard(dir, x, y, z, chunk);
    if let Some(other) = neighbours.get(dir) {
        assert(neighbours.slot(dir).is_some());
        assert(owned(*neighbours).slot(dir) == Some(**other));
        match dir {
            Dir::East => {
                if x == last {
                    discard = other.get_block(LocalCoord { x: 0, y, z }) != Block::Empty;
                }
            },
            Dir::West => {
                if x == 0 {
                    discard = other.get_block(LocalCoord { x: last, y, z }) != Block::Empty;
                }
            },
            Dir::North => {
                if z == last {
                    discard = other.get_block(LocalCoord { x, y, z: 0 }) != Block::Empty;
                }
            },
            Dir::South => {
                if z == 0 {
                    discard = other.get_block(LocalCoord { x, y, z: last }) != Block::Empty;
                }
            },
            Dir::Up => {
                if y == last {
                    discard = other.get_block(LocalCoord { x, y: 0, z }) != Block::Empty;
                }
            },
            Dir::Down => {
                if y == 0 {
                    discard = other.get_block(LocalCoord { x, y: last, z }) != Block::Empty;
                }
            },
        }
    }
    !discard
}

/// Appends the two triangles of the face of cell `position` towards `face`,
/// textured from the atlas entry of the cell's block kind; an empty cell adds
/// nothing.
pub fn add_face(
    atlas: &Atlas,
    chunk: &Chunk,
    position: [u8; 3],
    face: Dir,
    vertices: &mut Vec<ChunkVertex>,
)
    requires
        atlas.wf(),
        atlas.entries().len() >= BLOCK_KINDS,
        chunk.wf(),
        position[0] < CHUNK_SIZE,
        position[1] < CHUNK_SIZE,
        position[2] < CHUNK_SIZE,
    ensures
        ({
            let (x, y, z) = (position[0] as int, position[1] as int, position[2] as int);
            bits_of(final(vertices)@) == bits_of(old(vertices)@) + if cell(*chunk, x, y, z)
                != Block::Empty {
                face_vertices(cell(*chunk, x, y, z), x, y, z, face)
            } else {
                seq![]
            }
        }),
{
    let ghost (gx, gy, gz) = (position[0] as int, position[1] as int, position[2] as int);
    let block = chunk.get_block(
        LocalCoord { x: position[0] as u16, y: position[1] as u16, z: position[2] as u16 },
    );
    assert(block == cell(*chunk, gx, gy, gz));
    let tag = block.tag_of();
    if tag > 0 {
        let side = match face {
            Dir::Up => Side::Top,
            Dir::Down => Side::Base,
            _ => Side::Side,
        };
        let uv = atlas.uvs_of_block_index(tag as usize, side);
        let corners = corners_of(face);
        let ghost start = bits_of(vertices@);
        let ghost fv = face_vertices(block, gx, gy, gz, face);
        let mut k: usize = 0;
        while k < 6
            invariant
                k <= 6,
                bits_of(vertices@) == start + fv.take(k as int),
                start == bits_of(old(vertices)@),
                fv == face_vertices(block, gx, gy, gz, face),
                side == face_class(face),
                forall|i: int|
                    0 <= i < 4 ==> uv@[i] == UVS_PER_BLOCK * tag + side.uv_offset() + i,
                forall|i: int|
                    0 <= i < 6 ==> {
                        &&& corners@[i]@[0] == (#[trigger] face_corners(face)[i]).0
                        &&& corners@[i]@[1] == face_corners(face)[i].1
                        &&& corners@[i]@[2] == face_corners(face)[i].2
                        &&& corners@[i]@[3] == face_corners(face)[i].3
                    },
                position[0] < CHUNK_SIZE,
                position[1] < CHUNK_SIZE,
                position[2] < CHUNK_SIZE,
                gx == position[0] as int,
                gy == position[1] as int,
                gz == position[2] as int,
                tag == block.tag(),
            decreases 6 - k,
        {
            let c = corners[k];
            assert(c[0] <= 1 && c[1] <= 1 && c[2] <= 1 && c[3] <= 3);
            let v = ChunkVertex::new(
                [position[0] + c[0], position[1] + c[1], position[2] + c[2]],
                face,
                uv[c[3] as usize] as u32,
            );
            vertices.push(v);
            proof {
                assert(fv.take(k + 1) =~= fv.take(k as int).push(fv[k as int]));
                assert(bits_of(vertices@) =~= bits_of(old(vertices)@) + fv.take(k as int)
                    + seq![v.bits()]) by {
                    assert(bits_of(vertices@) =~= bits_of(vertices@.drop_last()).push(v.bits()));
                }
            }
            k = k + 1;
        }
        assert(fv.take(6) =~= fv);
    }
}

/// Builds the mesh of `chunk`: for every cell in x, y, z order and every
/// direction in ordinal order, the two triangles of each visible face.
pub fn build_chunk_mesh(atlas: &Atlas, chunk: &Chunk, neighbours: &Neighbours<&Chunk>) -> (r: Vec<
    ChunkVertex,
>)
    requires
        atlas.wf(),
        atlas.entries().len() >= BLOCK_KINDS,
        chunk.wf(),
        neighbours_wf(owned(*neighbours)),
    ensures
        bits_of(r@) == chunk_mesh(*chunk, owned(*neighbours)),
{
    let ghost c = *chunk;
    let ghost n = owned(*neighbours);
    let mut vertices: Vec<ChunkVertex> = Vec::new();
    assert(bits_of(vertices@) =~= seq![]);
    let mut x: u16 = 0;
    while x < CHUNK_SIZE as u16
        invariant
            x <= CHUNK_SIZE,
            atlas.wf(),
            atlas.entries().len() >= BLOCK_KINDS,
            chunk.wf(),
            neighbours_wf(owned(*neighbours)),
            c == *chunk,
            n == owned(*neighbours),
            bits_of(vertices@) == mesh_slabs(c, n, x as int),
        decreases CHUNK_SIZE - x,
    {
        let mut y: u16 = 0;
        assert(bits_of(vertices@) =~= mesh_slabs(c, n, x as int) + mesh_slab(c, n, x as int, 0));
        while y < CHUNK_SIZE as u16
            invariant
                x < CHUNK_SIZE,
                y <= CHUNK_SIZE,
                atlas.wf(),
                atlas.entries().len() >= BLOCK_KINDS,
                chunk.wf(),
                neighbours_wf(owned(*neighbours)),
                c == *chunk,
                n == owned(*neighbours),
                bits_of(vertices@) == mesh_slabs(c, n, x as int) + mesh_slab(c, n, x as int, y as int),
            decreases CHUNK_SIZE - y,
        {
            let mut z: u16 = 0;
            assert(bits_of(vertices@) =~= mesh_slabs(c, n, x as int) + mesh_slab(c, n, x as int, y as int)
                + mesh_row(c, n, x as int, y as int, 0));
            while z < CHUNK_SIZE as u16
                invariant
                    x < CHUNK_SIZE,
                    y < CHUNK_SIZE,
                    z <= CHUNK_SIZE,
                    atlas.wf(),
                    atlas.entries().len() >= BLOCK_KINDS,
                    chunk.wf(),
                    neighbours_wf(owned(*neighbours)),
                    c == *chunk,
                    n == owned(*neighbours),
                    bits_of(vertices@) == mesh_slabs(c, n, x as int) + mesh_slab(c, n, x as int, y as int)
                        + mesh_row(c, n, x as int, y as int, z as int),
                decreases CHUNK_SIZE - z,
            {
                let ghost before = mesh_slabs(c, n, x as int) + mesh_slab(c, n, x as int, y as int)
                    + mesh_row(c, n, x as int, y as int, z as int);
                assert(bits_of(vertices@) =~= before + mesh_dirs(c, n, x as int, y as int, z as int, 0));
                let mut k: u8 = 0;
                while k < 6
                    invariant
                        x < CHUNK_SIZE,
                        y < CHUNK_SIZE,
                        z < CHUNK_SIZE,
                        k <= 6,
                        atlas.wf(),
                        atlas.entries().len() >= BLOCK_KINDS,
                        chunk.wf(),
                        neighbours_wf(owned(*neighbours)),
                        c == *chunk,
                        n == owned(*neighbours),
                        bits_of(vertices@) == before + mesh_dirs(c, n, x as int, y as int, z as int, k as int),
                    decreases 6 - k,
                {
                    let dir = Dir::from_index(k);
                    let ghost prev = bits_of(vertices@);
                    if face_is_visible(chunk, neighbours, x, y, z, dir) {
                        let pos = [x as u8, y as u8, z as u8];
                        assert(pos[0] == x && pos[1] == y && pos[2] == z);
                        add_face(atlas, chunk, pos, dir, &mut vertices);
                    } else {
                        assert(bits_of(vertices@) =~= prev + seq![]);
                    }
                    assert(bits_of(vertices@) =~= prev + face_out(c, n, x as int, y as int, z as int, dir));
                    assert(before + mesh_dirs(c, n, x as int, y as int, z as int, k + 1) =~= before
                        + mesh_dirs(c, n, x as int, y as int, z as int, k as int) + face_out(
                        c,
                        n,
                        x as int,
                        y as int,
                        z as int,
                        dir,
                    ));
                    k = k + 1;
                }
                assert(mesh_row(c, n, x as int, y as int, z + 1) =~= mesh_row(c, n, x as int, y as int, z as int)
                    + mesh_dirs(c, n, x as int, y as int, z as int, 6));
                assert(bits_of(vertices@) =~= mesh_slabs(c, n, x as int) + mesh_slab(c, n, x as int, y as int)
                    + mesh_row(c, n, x as int, y as int, z + 1));
                z = z + 1;
            }
            assert(mesh_slab(c, n, x as int, y + 1) =~= mesh_slab(c, n, x as int, y as int) + mesh_row(
                c,
                n,
                x as int,
                y as int,
                16,
            ));
            assert(bits_of(vertices@) =~= mesh_slabs(c, n, x as int) + mesh_slab(c, n, x as int, y + 1));
            y = y + 1;
        }
        assert(mesh_slabs(c, n, x + 1) =~= mesh_slabs(c, n, x as int) + mesh_slab(c, n, x as int, 16));
        x = x + 1;
    }
    vertices
}

} // verus!
