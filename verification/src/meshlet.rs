//! The two plain records that every mesh artifact is made of: a vertex and a
//! meshlet.

use vstd::prelude::*;

verus! {

/// The largest number of vertices one meshlet may hold.
pub const MAX_MESHLET_VERTICES: usize = 128;

/// The largest number of triangles one meshlet may hold.
pub const MAX_MESHLET_TRIANGLES: usize = 128;

/// Mask of the sign bit of an IEEE-754 single-precision number.
pub const SIGN_BIT: u32 = 0x8000_0000;

/// A bounded cluster of a mesh. Its vertices are the range
/// `[vertex_offset, vertex_offset + vertex_count)` of a vertex buffer, its
/// triangle corners the range `[triangle_offset, triangle_offset + 3 * triangle_count)`
/// of a buffer of cluster-local indices.
#[derive(Clone, Copy, Debug, PartialEq, Eq, Structural)]
pub struct Meshlet {
    pub vertex_offset: u32,
    pub vertex_count: u32,
    pub triangle_offset: u32,
    pub triangle_count: u32,
}

impl Meshlet {
    pub fn new(vertex_offset: u32, vertex_count: u32, triangle_offset: u32, triangle_count: u32) -> (
        m: Meshlet
    )
        ensures
            m == (Meshlet { vertex_offset, vertex_count, triangle_offset, triangle_count }),
    {
        Meshlet { vertex_offset, vertex_count, triangle_offset, triangle_count }
    }

    pub fn vertex_offset(&self) -> (r: u32)
        ensures
            r == self.vertex_offset,
    {
        self.vertex_offset
    }

    pub fn vertex_count(&self) -> (r: u32)
        ensures
            r == self.vertex_count,
    {
        self.vertex_count
    }

    pub fn triangle_offset(&self) -> (r: u32)
        ensures
            r == self.triangle_offset,
    {
        self.triangle_offset
    }

    pub fn triangle_count(&self) -> (r: u32)
        ensures
            r == self.triangle_count,
    {
        self.triangle_count
    }

    /// One past the last vertex of the cluster.
    pub open spec fn vertex_end(self) -> int {
        self.vertex_offset + self.vertex_count
    }

    /// One past the last triangle corner of the cluster.
    pub open spec fn triangle_end(self) -> int {
        self.triangle_offset + 3 * self.triangle_count
    }
}

/// One vertex of a mesh: position, normal and texture coordinate. Each
/// component is the bit pattern of an IEEE-754 single-precision number, so
/// that two vertices are equal exactly when their 32 bytes are.
#[derive(Clone, Copy, Debug, Default)]
pub struct VertexLayout {
    pub position: [u32; 3],
    pub normal: [u32; 3],
    pub uv: [u32; 2],
}

/// The bit pattern of `-x`, given that of `x`: the sign bit flipped.
pub open spec fn negated(bits: u32) -> u32 {
    bits ^ SIGN_BIT
}

pub fn negate(bits: u32) -> (r: u32)
    ensures
        r == negated(bits),
{
    bits ^ SIGN_BIT
}

} // verus!
