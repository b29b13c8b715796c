//! The fixed-layout records of the BSP lumps. Floating-point fields are kept
//! as their IEEE-754 single-precision bit patterns.
use vstd::prelude::*;
use crate::bytes::{le_i16_at, le_i32_at, le_u16_at, le_u32_at, read_i16, read_i32, read_u16, read_u32};
use crate::record::Record;

verus! {

/// Three `f32` values, each held as its bit pattern.
#[derive(Debug, Clone, Copy, PartialEq, Eq, Structural)]
pub struct Vec3 {
    pub x: u32,
    pub y: u32,
    pub z: u32,
}

pub const SIGN_BIT: u32 = 0x8000_0000;

impl Vec3 {
    /// Each component with its sign flipped: the bit pattern of the negated
    /// float.
    pub open spec fn spec_neg(self) -> Vec3 {
        Vec3 { x: self.x ^ SIGN_BIT, y: self.y ^ SIGN_BIT, z: self.z ^ SIGN_BIT }
    }

    pub fn neg(self) -> (r: Vec3)
        ensures
            r == self.spec_neg(),
    {
        Vec3 { x: self.x ^ SIGN_BIT, y: self.y ^ SIGN_BIT, z: self.z ^ SIGN_BIT }
    }
}

impl Record for Vec3 {
    open spec fn spec_size() -> nat {
        12
    }

    open spec fn spec_at(b: Seq<u8>, at: int) -> Vec3 {
        Vec3 { x: le_u32_at(b, at), y: le_u32_at(b, at + 4), z: le_u32_at(b, at + 8) }
    }

    fn size() -> (r: usize) {
        12
    }

    fn read_at(b: &[u8], at: usize) -> (r: Vec3) {
        Vec3 { x: read_u32(b, at), y: read_u32(b, at + 4), z: read_u32(b, at + 8) }
    }
}

/// A plane: normal, distance from the origin, axis type.
#[derive(Debug, Clone, Copy, PartialEq, Eq, Structural)]
pub struct Plane {
    pub normal: Vec3,
    pub distance: u32,
    pub ptype: u32,
}

impl Record for Plane {
    open spec fn spec_size() -> nat {
        20
    }

    open spec fn spec_at(b: Seq<u8>, at: int) -> Plane {
        Plane {
            normal: Vec3::spec_at(b, at),
            distance: le_u32_at(b, at + 12),
            ptype: le_u32_at(b, at + 16),
        }
    }

    fn size() -> (r: usize) {
        20
    }

    fn read_at(b: &[u8], at: usize) -> (r: Plane) {
        Plane {
            normal: Vec3::read_at(b, at),
            distance: read_u32(b, at + 12),
            ptype: read_u32(b, at + 16),
        }
    }
}

/// An undirected edge between two vertices.
#[derive(Debug, Clone, Copy, PartialEq, Eq, Structural)]
pub struct Edge {
    pub v0: u16,
    pub v1: u16,
}

impl Record for Edge {
    open spec fn spec_size() -> nat {
        4
    }

    open spec fn spec_at(b: Seq<u8>, at: int) -> Edge {
        Edge { v0: le_u16_at(b, at), v1: le_u16_at(b, at + 2) }
    }

    fn size() -> (r: usize) {
        4
    }

    fn read_at(b: &[u8], at: usize) -> (r: Edge) {
        Edge { v0: read_u16(b, at), v1: read_u16(b, at + 2) }
    }
}

/// A surfedge: its absolute value indexes the edge table, its sign gives the
/// direction.
impl Record for i32 {
    open spec fn spec_size() -> nat {
        4
    }

    open spec fn spec_at(b: Seq<u8>, at: int) -> i32 {
        le_i32_at(b, at)
    }

    fn size() -> (r: usize) {
        4
    }

    fn read_at(b: &[u8], at: usize) -> (r: i32) {
        read_i32(b, at)
    }
}

/// A marksurface: an index into the face table.
impl Record for u16 {
    open spec fn spec_size() -> nat {
        2
    }

    open spec fn spec_at(b: Seq<u8>, at: int) -> u16 {
        le_u16_at(b, at)
    }

    fn size() -> (r: usize) {
        2
    }

    fn read_at(b: &[u8], at: usize) -> (r: u16) {
        read_u16(b, at)
    }
}

/// A face: its plane and side, its run of surfedges, its texture projection
/// and its lightmap.
#[derive(Debug, Clone, Copy)]
pub struct Face {
    pub plane_index: u16,
    pub plane_side: u16,
    pub first_surfedge: u32,
    pub surfedges_num: u16,
    pub texinfo_index: u16,
    pub styles: [u8; 4],
    pub lightmap_offset: u32,
}

impl Record for Face {
    open spec fn spec_size() -> nat {
        20
    }

    open spec fn spec_at(b: Seq<u8>, at: int) -> Face {
        Face {
            plane_index: le_u16_at(b, at),
            plane_side: le_u16_at(b, at + 2),
            first_surfedge: le_u32_at(b, at + 4),
            surfedges_num: le_u16_at(b, at + 8),
            texinfo_index: le_u16_at(b, at + 10),
            styles: [b[at + 12], b[at + 13], b[at + 14], b[at + 15]],
            lightmap_offset: le_u32_at(b, at + 16),
        }
    }

    fn size() -> (r: usize) {
        20
    }

    fn read_at(b: &[u8], at: usize) -> (r: Face) {
        Face {
            plane_index: read_u16(b, at),
            plane_side: read_u16(b, at + 2),
            first_surfedge: read_u32(b, at + 4),
            surfedges_num: read_u16(b, at + 8),
            texinfo_index: read_u16(b, at + 10),
            styles: [b[at + 12], b[at + 13], b[at + 14], b[at + 15]],
            lightmap_offset: read_u32(b, at + 16),
        }
    }
}

/// Texture projection: `u = dot(p, s) + s_shift`, `v = dot(p, t) + t_shift`.
#[derive(Debug, Clone, Copy, PartialEq, Eq, Structural)]
pub struct TexInfo {
    pub s: Vec3,
    pub s_shift: u32,
    pub t: Vec3,
    pub t_shift: u32,
    pub texture_index: u32,
    pub flags: u32,
}

impl Record for TexInfo {
    open spec fn spec_size() -> nat {
        40
    }

    open spec fn spec_at(b: Seq<u8>, at: int) -> TexInfo {
        TexInfo {
            s: Vec3::spec_at(b, at),
            s_shift: le_u32_at(b, at + 12),
            t: Vec3::spec_at(b, at + 16),
            t_shift: le_u32_at(b, at + 28),
            texture_index: le_u32_at(b, at + 32),
            flags: le_u32_at(b, at + 36),
        }
    }

    fn size() -> (r: usize) {
        40
    }

    fn read_at(b: &[u8], at: usize) -> (r: TexInfo) {
        TexInfo {
            s: Vec3::read_at(b, at),
            s_shift: read_u32(b, at + 12),
            t: Vec3::read_at(b, at + 16),
            t_shift: read_u32(b, at + 28),
            texture_index: read_u32(b, at + 32),
            flags: read_u32(b, at + 36),
        }
    }
}

/// A model: bounding box, origin, hull roots and its run of faces.
#[derive(Debug, Clone, Copy)]
pub struct Model {
    pub mins: Vec3,
    pub maxs: Vec3,
    pub origin: Vec3,
    pub headnodes: [u32; 4],
    pub vis_leaves: u32,
    pub first_face: u32,
    pub faces_num: u32,
}

impl Record for Model {
    open spec fn spec_size() -> nat {
        64
    }

    open spec fn spec_at(b: Seq<u8>, at: int) -> Model {
        Model {
            mins: Vec3::spec_at(b, at),
            maxs: Vec3::spec_at(b, at + 12),
            origin: Vec3::spec_at(b, at + 24),
            headnodes: [
                le_u32_at(b, at + 36),
                le_u32_at(b, at + 40),
                le_u32_at(b, at + 44),
                le_u32_at(b, at + 48),
            ],
            vis_leaves: le_u32_at(b, at + 52),
            first_face: le_u32_at(b, at + 56),
            faces_num: le_u32_at(b, at + 60),
        }
    }

    fn size() -> (r: usize) {
        64
    }

    fn read_at(b: &[u8], at: usize) -> (r: Model) {
        Model {
            mins: Vec3::read_at(b, at),
            maxs: Vec3::read_at(b, at + 12),
            origin: Vec3::read_at(b, at + 24),
            headnodes: [
                read_u32(b, at + 36),
                read_u32(b, at + 40),
                read_u32(b, at + 44),
                read_u32(b, at + 48),
            ],
            vis_leaves: read_u32(b, at + 52),
            first_face: read_u32(b, at + 56),
            faces_num: read_u32(b, at + 60),
        }
    }
}

/// A clipnode of the collision hulls: a plane and two children.
#[derive(Debug, Clone, Copy)]
pub struct Clipnode {
    pub plane: i32,
    pub children: [i16; 2],
}

impl Record for Clipnode {
    open spec fn spec_size() -> nat {
        8
    }

    open spec fn spec_at(b: Seq<u8>, at: int) -> Clipnode {
        Clipnode { plane: le_i32_at(b, at), children: [le_i16_at(b, at + 4), le_i16_at(b, at + 6)] }
    }

    fn size() -> (r: usize) {
        8
    }

    fn read_at(b: &[u8], at: usize) -> (r: Clipnode) {
        Clipnode { plane: read_i32(b, at), children: [read_i16(b, at + 4), read_i16(b, at + 6)] }
    }
}

} // verus!
