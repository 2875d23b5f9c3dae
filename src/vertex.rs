use vstd::prelude::*;

use crate::dir::{dir_of_ordinal, Dir};

verus! {

/// Largest UV corner index that fits a packed vertex, plus one.
pub const UV_INDEX_LIMIT: u32 = 2048;

/// Largest position component that fits a packed vertex, plus one.
pub const POSITION_LIMIT: u8 = 64;

/// The packed form of a vertex: bits 0..11 the UV corner index, 11..14 the
/// face direction, then six bits each for z, y and x.
pub open spec fn packed(x: u32, y: u32, z: u32, n: u32, uv: u32) -> u32 {
    uv | (n << 11u32) | (z << 14u32) | (y << 20u32) | (x << 26u32)
}

pub open spec fn field_uv(v: u32) -> u32 {
    v & 0x7ffu32
}

pub open spec fn field_dir(v: u32) -> u32 {
    (v & 0x3800u32) >> 11u32
}

pub open spec fn field_z(v: u32) -> u32 {
    (v & 0xfc000u32) >> 14u32
}

pub open spec fn field_y(v: u32) -> u32 {
    (v & 0x3f00000u32) >> 20u32
}

pub open spec fn field_x(v: u32) -> u32 {
    (v & 0xfc000000u32) >> 26u32
}

/// Unpacking a packed vertex gives back every field that was packed.
pub proof fn lemma_pack_round_trip(x: u32, y: u32, z: u32, n: u32, uv: u32)
    requires
        x < 64,
        y < 64,
        z < 64,
        n < 8,
        uv < 2048,
    ensures
        field_x(packed(x, y, z, n, uv)) == x,
        field_y(packed(x, y, z, n, uv)) == y,
        field_z(packed(x, y, z, n, uv)) == z,
        field_dir(packed(x, y, z, n, uv)) == n,
        field_uv(packed(x, y, z, n, uv)) == uv,
{
    assert(field_x(packed(x, y, z, n, uv)) == x) by (bit_vector)
        requires
            x < 64,
            y < 64,
            z < 64,
            n < 8,
            uv < 2048,
    ;
    assert(field_y(packed(x, y, z, n, uv)) == y) by (bit_vector)
        requires
            x < 64,
            y < 64,
            z < 64,
            n < 8,
            uv < 2048,
    ;
    assert(field_z(packed(x, y, z, n, uv)) == z) by (bit_vector)
        requires
            x < 64,
            y < 64,
            z < 64,
            n < 8,
            uv < 2048,
    ;
    assert(field_dir(packed(x, y, z, n, uv)) == n) by (bit_vector)
        requires
            x < 64,
            y < 64,
            z < 64,
            n < 8,
            uv < 2048,
    ;
    assert(field_uv(packed(x, y, z, n, uv)) == uv) by (bit_vector)
        requires
            x < 64,
            y < 64,
            z < 64,
            n < 8,
            uv < 2048,
    ;
}

/// Packs a vertex position, face direction and UV corner index into 32 bits.
pub fn pack(position: [u8; 3], normal: Dir, uv_index: u32) -> (r: u32)
    requires
        position[0] < POSITION_LIMIT,
        position[1] < POSITION_LIMIT,
        position[2] < POSITION_LIMIT,
        uv_index < UV_INDEX_LIMIT,
    ensures
        r == packed(
            position[0] as u32,
            position[1] as u32,
            position[2] as u32,
            normal.ordinal() as u32,
            uv_index,
        ),
{
    let normal = normal.index() as u32;
    let x = position[0] as u32;
    let y = position[1] as u32;
    let z = position[2] as u32;
    let mut v: u32 = 0;
    v = v | uv_index;
    v = v | (normal << 11u32);
    v = v | (z << 14u32);
    v = v | (y << 20u32);
    v = v | (x << 26u32);
    assert(v == packed(x, y, z, normal, uv_index)) by (bit_vector)
        requires
            v == (((((0u32 | uv_index) | (normal << 11u32)) | (z << 14u32)) | (y << 20u32)) | (x
                << 26u32)),
    ;
    v
}

/// Splits a packed vertex into position, face direction and UV corner index.
/// The direction field of a packed vertex is below 6.
pub fn unpack(v: u32) -> (r: ([u8; 3], Dir, u32))
    requires
        field_dir(v) < 6,
    ensures
        r.0[0] == field_x(v),
        r.0[1] == field_y(v),
        r.0[2] == field_z(v),
        r.1 == dir_of_ordinal(field_dir(v) as int),
        r.2 == field_uv(v),
{
    let uv_index = v & 0x7ffu32;
    let dir = (v & 0x3800u32) >> 11u32;
    let z = (v & 0xfc000u32) >> 14u32;
    let y = (v & 0x3f00000u32) >> 20u32;
    let x = (v & 0xfc000000u32) >> 26u32;
    assert(x < 64 && y < 64 && z < 64) by (bit_vector)
        requires
            z == (v & 0xfc000u32) >> 14u32,
            y == (v & 0x3f00000u32) >> 20u32,
            x == (v & 0xfc000000u32) >> 26u32,
    ;
    ([x as u8, y as u8, z as u8], Dir::from_index(dir as u8), uv_index)
}

/// One vertex of a chunk mesh, packed into 32 bits.
#[derive(Clone, Copy, Debug, PartialEq, Eq)]
pub struct ChunkVertex {
    v: u32,
}

impl ChunkVertex {
    /// The packed bits.
    pub closed spec fn bits(&self) -> u32 {
        self.v
    }

    pub fn new(position: [u8; 3], normal: Dir, uv_index: u32) -> (r: ChunkVertex)
        requires
            position[0] < POSITION_LIMIT,
            position[1] < POSITION_LIMIT,
            position[2] < POSITION_LIMIT,
            uv_index < UV_INDEX_LIMIT,
        ensures
            r.bits() == packed(
                position[0] as u32,
                position[1] as u32,
                position[2] as u32,
                normal.ordinal() as u32,
                uv_index,
            ),
    {
        ChunkVertex { v: pack(position, normal, uv_index) }
    }

    /// The packed bits, as the renderer reads them.
    pub fn value(&self) -> (r: u32)
        ensures
            r == self.bits(),
    {
        self.v
    }
}

} // verus!
