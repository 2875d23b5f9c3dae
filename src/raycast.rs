use vstd::prelude::*;

use crate::blocks::Block;
use crate::coord::Coord;
use crate::dir::{dir_of_ordinal, Dir};
use crate::world::{block_in, World};

verus! {

/// A triangle of a unit cube's surface; corners in block units from the
/// cube's origin.
#[derive(Clone, Copy, Debug, PartialEq, Eq)]
pub struct Triangle {
    pub p0: [u8; 3],
    pub p1: [u8; 3],
    pub p2: [u8; 3],
}

/// Whether `p` is a corner of the unit cube on its face towards `d`.
pub open spec fn on_face(p: [u8; 3], d: Dir) -> bool {
    &&& p[0] <= 1 && p[1] <= 1 && p[2] <= 1
    &&& match d {
        Dir::North => p[2] == 1,
        Dir::South => p[2] == 0,
        Dir::East => p[0] == 1,
        Dir::West => p[0] == 0,
        Dir::Up => p[1] == 1,
        Dir::Down => p[1] == 0,
    }
}

/// Whether `t` is a proper triangle on the cube's face towards `d`.
pub open spec fn triangle_on_face(t: Triangle, d: Dir) -> bool {
    &&& on_face(t.p0, d)
    &&& on_face(t.p1, d)
    &&& on_face(t.p2, d)
    &&& t.p0 != t.p1
    &&& t.p1 != t.p2
    &&& t.p0 != t.p2
}

/// The triangle with corners `a`, `b`, `c`.
pub open spec fn triangle(a: [u8; 3], b: [u8; 3], c: [u8; 3]) -> Triangle {
    Triangle { p0: a, p1: b, p2: c }
}

/// The twelve triangles of the unit cube's surface, two per face, faces in
/// direction order, corners wound so that each triangle faces outwards.
pub open spec fn cube_triangle(i: int) -> Triangle {
    if i == 0 {
        triangle([0, 0, 1], [1, 0, 1], [1, 1, 1])
    } else if i == 1 {
        triangle([0, 0, 1], [1, 1, 1], [0, 1, 1])
    } else if i == 2 {
        triangle([0, 0, 0], [1, 1, 0], [1, 0, 0])
    } else if i == 3 {
        triangle([0, 0, 0], [0, 1, 0], [1, 1, 0])
    } else if i == 4 {
        triangle([1, 0, 0], [1, 1, 1], [1, 0, 1])
    } else if i == 5 {
        triangle([1, 0, 0], [1, 1, 0], [1, 1, 1])
    } else if i == 6 {
        triangle([0, 0, 0], [0, 0, 1], [0, 1, 1])
    } else if i == 7 {
        triangle([0, 0, 0], [0, 1, 1], [0, 1, 0])
    } else if i == 8 {
        triangle([0, 1, 0], [1, 1, 1], [1, 1, 0])
    } else if i == 9 {
        triangle([0, 1, 0], [0, 1, 1], [1, 1, 1])
    } else if i == 10 {
        triangle([0, 0, 0], [1, 0, 0], [1, 0, 1])
    } else {
        triangle([0, 0, 0], [1, 0, 1], [0, 0, 1])
    }
}

/// Whether the normal `(p1 - p0) × (p2 - p0)` of `t` is the unit step of `d`:
/// the triangle faces out of the cube through its face towards `d`.
pub open spec fn faces_outward(t: Triangle, d: Dir) -> bool {
    let (ux, uy, uz) = (t.p1[0] - t.p0[0], t.p1[1] - t.p0[1], t.p1[2] - t.p0[2]);
    let (vx, vy, vz) = (t.p2[0] - t.p0[0], t.p2[1] - t.p0[1], t.p2[2] - t.p0[2]);
    &&& uy * vz - uz * vy == d.dx()
    &&& uz * vx - ux * vz == d.dy()
    &&& ux * vy - uy * vx == d.dz()
}

/// Whether `(x, y, z)` is a corner of `t`.
pub open spec fn has_corner(t: Triangle, x: int, y: int, z: int) -> bool {
    ||| (t.p0[0] == x && t.p0[1] == y && t.p0[2] == z)
    ||| (t.p1[0] == x && t.p1[1] == y && t.p1[2] == z)
    ||| (t.p2[0] == x && t.p2[1] == y && t.p2[2] == z)
}

/// Whether `(x, y, z)` is one of the four corners of the cube's face towards `d`.
pub open spec fn face_corner(d: Dir, x: int, y: int, z: int) -> bool {
    &&& 0 <= x <= 1 && 0 <= y <= 1 && 0 <= z <= 1
    &&& match d {
        Dir::North => z == 1,
        Dir::South => z == 0,
        Dir::East => x == 1,
        Dir::West => x == 0,
        Dir::Up => y == 1,
        Dir::Down => y == 0,
    }
}

/// Whether triangles `a` and `b` together cover the square face towards `d`:
/// every corner of the face belongs to one of them, and the corner that `a`
/// lacks is opposite the corner that `b` lacks, so the two halves meet along
/// the same diagonal.
pub open spec fn cover_face(a: Triangle, b: Triangle, d: Dir) -> bool {
    &&& forall|x: int, y: int, z: int|
        #[trigger] face_corner(d, x, y, z) ==> has_corner(a, x, y, z) || has_corner(b, x, y, z)
    &&& forall|x1: int, y1: int, z1: int, x2: int, y2: int, z2: int|
        face_corner(d, x1, y1, z1) && face_corner(d, x2, y2, z2) && !#[trigger] has_corner(
            a,
            x1,
            y1,
            z1,
        ) && !#[trigger] has_corner(b, x2, y2, z2) ==> {
            &&& !(x1 == x2 && y1 == y2)
            &&& !(x1 == x2 && z1 == z2)
            &&& !(y1 == y2 && z1 == z2)
        }
}

fn tri(p0: [u8; 3], p1: [u8; 3], p2: [u8; 3], d: Dir) -> (r: (Triangle, Dir))
    ensures
        r.0 == (Triangle { p0, p1, p2 }),
        r.1 == d,
{
    (Triangle { p0, p1, p2 }, d)
}

/// The surface of a unit cube: two triangles per face, faces in direction
/// order, each tagged with the direction its face looks towards. The two
/// triangles of a face cover it and both face outwards.
pub fn create_block_triangles() -> (r: [(Triangle, Dir); 12])
    ensures
        forall|i: int|
            0 <= i < 12 ==> {
                &&& (#[trigger] r@[i]).0 == cube_triangle(i)
                &&& r@[i].1 == dir_of_ordinal(i / 2)
                &&& triangle_on_face(r@[i].0, r@[i].1)
                &&& faces_outward(r@[i].0, r@[i].1)
            },
        forall|f: int| 0 <= f < 6 ==> cover_face(#[trigger] r@[2 * f].0, r@[2 * f + 1].0, dir_of_ordinal(f)),
{
    let r = [
        tri([0, 0, 1], [1, 0, 1], [1, 1, 1], Dir::North),
        tri([0, 0, 1], [1, 1, 1], [0, 1, 1], Dir::North),
        tri([0, 0, 0], [1, 1, 0], [1, 0, 0], Dir::South),
        tri([0, 0, 0], [0, 1, 0], [1, 1, 0], Dir::South),
        tri([1, 0, 0], [1, 1, 1], [1, 0, 1], Dir::East),
        tri([1, 0, 0], [1, 1, 0], [1, 1, 1], Dir::East),
        tri([0, 0, 0], [0, 0, 1], [0, 1, 1], Dir::West),
        tri([0, 0, 0], [0, 1, 1], [0, 1, 0], Dir::West),
        tri([0, 1, 0], [1, 1, 1], [1, 1, 0], Dir::Up),
        tri([0, 1, 0], [0, 1, 1], [1, 1, 1], Dir::Up),
        tri([0, 0, 0], [1, 0, 0], [1, 0, 1], Dir::Down),
        tri([0, 0, 0], [1, 0, 1], [0, 0, 1], Dir::Down),
    ];
    assert forall|i: int| 0 <= i < 12 implies {
        &&& (#[trigger] r@[i]).0 == cube_triangle(i)
        &&& r@[i].1 == dir_of_ordinal(i / 2)
        &&& triangle_on_face(r@[i].0, r@[i].1)
        &&& faces_outward(r@[i].0, r@[i].1)
    } by {
        if i == 0 {
            let t = cube_triangle(0);
            assert(t.p0[0] == 0 && t.p0[1] == 0 && t.p0[2] == 1 && t.p1[0] == 1 && t.p1[1] == 0 && t.p1[2] == 1 && t.p2[0] == 1 && t.p2[1] == 1 && t.p2[2] == 1);
            assert(faces_outward(t, Dir::North));
        } else if i == 1 {
            let t = cube_triangle(1);
            assert(t.p0[0] == 0 && t.p0[1] == 0 && t.p0[2] == 1 && t.p1[0] == 1 && t.p1[1] == 1 && t.p1[2] == 1 && t.p2[0] == 0 && t.p2[1] == 1 && t.p2[2] == 1);
            assert(faces_outward(t, Dir::North));
        } else if i == 2 {
            let t = cube_triangle(2);
            assert(t.p0[0] == 0 && t.p0[1] == 0 && t.p0[2] == 0 && t.p1[0] == 1 && t.p1[1] == 1 && t.p1[2] == 0 && t.p2[0] == 1 && t.p2[1] == 0 && t.p2[2] == 0);
            assert(faces_outward(t, Dir::South));
        } else if i == 3 {
            let t = cube_triangle(3);
            assert(t.p0[0] == 0 && t.p0[1] == 0 && t.p0[2] == 0 && t.p1[0] == 0 && t.p1[1] == 1 && t.p1[2] == 0 && t.p2[0] == 1 && t.p2[1] == 1 && t.p2[2] == 0);
            assert(faces_outward(t, Dir::South));
        } else if i == 4 {
            let t = cube_triangle(4);
            assert(t.p0[0] == 1 && t.p0[1] == 0 && t.p0[2] == 0 && t.p1[0] == 1 && t.p1[1] == 1 && t.p1[2] == 1 && t.p2[0] == 1 && t.p2[1] == 0 && t.p2[2] == 1);
            assert(faces_outward(t, Dir::East));
        } else if i == 5 {
            let t = cube_triangle(5);
            assert(t.p0[0] == 1 && t.p0[1] == 0 && t.p0[2] == 0 && t.p1[0] == 1 && t.p1[1] == 1 && t.p1[2] == 0 && t.p2[0] == 1 && t.p2[1] == 1 && t.p2[2] == 1);
            assert(faces_outward(t, Dir::East));
        } else if i == 6 {
            let t = cube_triangle(6);
            assert(t.p0[0] == 0 && t.p0[1] == 0 && t.p0[2] == 0 && t.p1[0] == 0 && t.p1[1] == 0 && t.p1[2] == 1 && t.p2[0] == 0 && t.p2[1] == 1 && t.p2[2] == 1);
            assert(faces_outward(t, Dir::West));
        } else if i == 7 {
            let t = cube_triangle(7);
            assert(t.p0[0] == 0 && t.p0[1] == 0 && t.p0[2] == 0 && t.p1[0] == 0 && t.p1[1] == 1 && t.p1[2] == 1 && t.p2[0] == 0 && t.p2[1] == 1 && t.p2[2] == 0);
            assert(faces_outward(t, Dir::West));
        } else if i == 8 {
            let t = cube_triangle(8);
            assert(t.p0[0] == 0 && t.p0[1] == 1 && t.p0[2] == 0 && t.p1[0] == 1 && t.p1[1] == 1 && t.p1[2] == 1 && t.p2[0] == 1 && t.p2[1] == 1 && t.p2[2] == 0);
            assert(faces_outward(t, Dir::Up));
        } else if i == 9 {
            let t = cube_triangle(9);
            assert(t.p0[0] == 0 && t.p0[1] == 1 && t.p0[2] == 0 && t.p1[0] == 0 && t.p1[1] == 1 && t.p1[2] == 1 && t.p2[0] == 1 && t.p2[1] == 1 && t.p2[2] == 1);
            assert(faces_outward(t, Dir::Up));
        } else if i == 10 {
            let t = cube_triangle(10);
            assert(t.p0[0] == 0 && t.p0[1] == 0 && t.p0[2] == 0 && t.p1[0] == 1 && t.p1[1] == 0 && t.p1[2] == 0 && t.p2[0] == 1 && t.p2[1] == 0 && t.p2[2] == 1);
            assert(faces_outward(t, Dir::Down));
        } else {
            let t = cube_triangle(11);
            assert(t.p0[0] == 0 && t.p0[1] == 0 && t.p0[2] == 0 && t.p1[0] == 1 && t.p1[1] == 0 && t.p1[2] == 1 && t.p2[0] == 0 && t.p2[1] == 0 && t.p2[2] == 1);
            assert(faces_outward(t, Dir::Down));
        }
    }
    assert forall|f: int| 0 <= f < 6 implies cover_face(#[trigger] r@[2 * f].0, r@[2 * f + 1].0, dir_of_ordinal(f)) by {
        let (a, b, d) = (r@[2 * f].0, r@[2 * f + 1].0, dir_of_ordinal(f));
        assert forall|x: int, y: int, z: int|
            #[trigger] face_corner(d, x, y, z) implies has_corner(a, x, y, z) || has_corner(b, x, y, z) by {
            if x == 0 {
            } else {
            }
        }
        assert forall|x1: int, y1: int, z1: int, x2: int, y2: int, z2: int|
            face_corner(d, x1, y1, z1) && face_corner(d, x2, y2, z2) && !#[trigger] has_corner(
                a,
                x1,
                y1,
                z1,
            ) && !#[trigger] has_corner(b, x2, y2, z2) implies {
                &&& !(x1 == x2 && y1 == y2)
                &&& !(x1 == x2 && z1 == z2)
                &&& !(y1 == y2 && z1 == z2)
            } by {
            if x1 == 0 {
            } else {
            }
        }
    }
    r
}

/// Whether `(x, y, z)` is a block coordinate whose block is loaded and not empty.
pub open spec fn occupied(m: Map<Coord, crate::chunk::Chunk>, x: int, y: int, z: int) -> bool {
    &&& i32::MIN <= x <= i32::MAX
    &&& i32::MIN <= y <= i32::MAX
    &&& i32::MIN <= z <= i32::MAX
    &&& match block_in(m, Coord { x: x as i32, y: y as i32, z: z as i32 }) {
        Some(b) => b != Block::Empty,
        None => false,
    }
}

/// The occupied cells `(x, y, z0)` to `(x, y, z0 + n - 1)`, in order.
pub open spec fn scan_z(m: Map<Coord, crate::chunk::Chunk>, x: int, y: int, z0: int, n: int) -> Seq<Coord>
    decreases n,
{
    if n <= 0 {
        seq![]
    } else {
        scan_z(m, x, y, z0, n - 1) + if occupied(m, x, y, z0 + n - 1) {
            seq![Coord { x: x as i32, y: y as i32, z: (z0 + n - 1) as i32 }]
        } else {
            seq![]
        }
    }
}

/// The occupied cells of rows `y0` to `y0 + n - 1` of slab `x`, in order.
pub open spec fn scan_y(m: Map<Coord, crate::chunk::Chunk>, x: int, y0: int, n: int, z0: int, nz: int) -> Seq<Coord>
    decreases n,
{
    if n <= 0 {
        seq![]
    } else {
        scan_y(m, x, y0, n - 1, z0, nz) + scan_z(m, x, y0 + n - 1, z0, nz)
    }
}

/// The occupied cells of slabs `x0` to `x0 + n - 1` of a box, in order.
pub open spec fn scan_x(
    m: Map<Coord, crate::chunk::Chunk>,
    x0: int,
    n: int,
    y0: int,
    ny: int,
    z0: int,
    nz: int,
) -> Seq<Coord>
    decreases n,
{
    if n <= 0 {
        seq![]
    } else {
        scan_x(m, x0, n - 1, y0, ny, z0, nz) + scan_y(m, x0 + n - 1, y0, ny, z0, nz)
    }
}

/// The occupied cells of the cube of half-width `len` around `center`, in x,
/// y, z order.
pub open spec fn ray_candidates(m: Map<Coord, crate::chunk::Chunk>, center: Coord, len: int) -> Seq<Coord> {
    scan_x(
        m,
        center.x - len,
        2 * len + 1,
        center.y - len,
        2 * len + 1,
        center.z - len,
        2 * len + 1,
    )
}

/// The integer part of finding what a player looks at: which blocks a ray
/// cast has to test.
pub struct LookingAtSystem;

impl LookingAtSystem {
    /// The broad phase of a ray cast: every loaded, non-empty block within
    /// `len` of `center` on each axis, in x, y, z order. `center` is the
    /// block holding the ray's origin and `len` the ray's length rounded up.
    pub fn candidates(world: &World, center: Coord, len: u32) -> (r: Vec<Coord>)
        requires
            world.wf(),
        ensures
            r@ == ray_candidates(world.chunks(), center, len as int),
    {
        let ghost m = world.chunks();
        let x0 = center.x as i64 - len as i64;
        let y0 = center.y as i64 - len as i64;
        let z0 = center.z as i64 - len as i64;
        let x1 = center.x as i64 + len as i64;
        let y1 = center.y as i64 + len as i64;
        let z1 = center.z as i64 + len as i64;
        let ghost side = 2 * len + 1;
        let mut out: Vec<Coord> = Vec::new();
        let mut x = x0;
        while x <= x1
            invariant
                world.wf(),
                m == world.chunks(),
                x0 == center.x - len,
                y0 == center.y - len,
                z0 == center.z - len,
                x1 == center.x + len,
                y1 == center.y + len,
                z1 == center.z + len,
                side == 2 * len + 1,
                x0 <= x <= x1 + 1,
                out@ == scan_x(m, x0 as int, x - x0, y0 as int, side, z0 as int, side),
            decreases x1 + 1 - x,
        {
            let mut y = y0;
            while y <= y1
                invariant
                    world.wf(),
                    m == world.chunks(),
                    x0 == center.x - len,
                    y0 == center.y - len,
                    z0 == center.z - len,
                    x1 == center.x + len,
                    y1 == center.y + len,
                    z1 == center.z + len,
                    side == 2 * len + 1,
                    x0 <= x <= x1,
                    y0 <= y <= y1 + 1,
                    out@ == scan_x(m, x0 as int, x - x0, y0 as int, side, z0 as int, side) + scan_y(
                        m,
                        x as int,
                        y0 as int,
                        y - y0,
                        z0 as int,
                        side,
                    ),
                decreases y1 + 1 - y,
            {
                let mut z = z0;
                let ghost before = out@;
                assert(out@ =~= before + scan_z(m, x as int, y as int, z0 as int, 0));
                while z <= z1
                    invariant
                        world.wf(),
                        m == world.chunks(),
                        z0 == center.z - len,
                        z1 == center.z + len,
                        z0 <= z <= z1 + 1,
                        out@ == before + scan_z(m, x as int, y as int, z0 as int, z - z0),
                    decreases z1 + 1 - z,
                {
                    let ghost prev = out@;
                    let mut hit = false;
                    if i32::MIN as i64 <= x && x <= i32::MAX as i64 && i32::MIN as i64 <= y && y
                        <= i32::MAX as i64 && i32::MIN as i64 <= z && z <= i32::MAX as i64 {
                        let c = Coord { x: x as i32, y: y as i32, z: z as i32 };
                        match world.get_block(c) {
                            Some(b) => {
                                if !b.is_empty() {
                                    out.push(c);
                                    hit = true;
                                }
                            },
                            None => {},
                        }
                    }
                    assert(hit == occupied(m, x as int, y as int, z as int));
                    if hit {
                        assert(out@ =~= prev + seq![Coord { x: x as i32, y: y as i32, z: z as i32 }]);
                    } else {
                        assert(out@ =~= prev + seq![]);
                    }
                    assert(out@ =~= before + scan_z(m, x as int, y as int, z0 as int, z + 1 - z0));
                    z = z + 1;
                }
                assert(scan_y(m, x as int, y0 as int, y + 1 - y0, z0 as int, side) =~= scan_y(
                    m,
                    x as int,
                    y0 as int,
                    y - y0,
                    z0 as int,
                    side,
                ) + scan_z(m, x as int, y as int, z0 as int, side));
                y = y + 1;
            }
            assert(scan_x(m, x0 as int, x + 1 - x0, y0 as int, side, z0 as int, side) =~= scan_x(
                m,
                x0 as int,
                x - x0,
                y0 as int,
                side,
                z0 as int,
                side,
            ) + scan_y(m, x as int, y0 as int, side, z0 as int, side));
            x = x + 1;
        }
        out
    }
}

} // verus!
