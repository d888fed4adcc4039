//! The calls into the `meshopt` crate, and what this library relies on of
//! each of them.
//!
//! Nothing in this file is proved: every function here hands its arguments to
//! the mesh optimizer and the verifier takes the stated contract on trust.
//! The contracts of the integer-only routines (deduplication, remapping,
//! fetch ordering) say what the optimizer's documentation and source show.
//! Two routines are driven by vertex positions. The result of the clusterizer
//! has a name, `clusters_of`, and nothing else is claimed of it: the callers
//! in `mesh` check it. The result of the simplifier has a name too,
//! `simplified_of`; beside it only the shape of the result is claimed, which
//! does not depend on the positions: how long it is at most and that it names
//! vertices that exist.

use vstd::prelude::*;
use crate::meshlet::{Meshlet, VertexLayout};
use crate::wire::le_u32_at;

verus! {

/// The entry of a remap table for a vertex that no index refers to.
pub const NO_VERTEX: u32 = 0xFFFF_FFFF;

/// The number of bytes of one vertex.
pub const VERTEX_STRIDE: usize = 32;

/// Every index names a vertex of a buffer of `vertex_count` vertices.
pub open spec fn indices_in_range(indices: Seq<u32>, vertex_count: int) -> bool {
    forall|i: int| 0 <= i < indices.len() ==> (#[trigger] indices[i]) < vertex_count
}

/// Some index refers to vertex `v`.
pub open spec fn is_referenced(indices: Seq<u32>, v: int) -> bool {
    exists|i: int| 0 <= i < indices.len() && #[trigger] indices[i] == v
}

/// The number `k` occurs in `ids` before position `i`.
pub open spec fn used_before(ids: Seq<u32>, i: int, k: int) -> bool {
    exists|j: int| 0 <= j < i && #[trigger] ids[j] == k
}

/// `ids` uses exactly the numbers below `count`, and uses them in rising
/// order: a number first occurs only after every smaller one has occurred.
pub open spec fn numbered_in_order(ids: Seq<u32>, count: nat) -> bool {
    &&& forall|i: int| 0 <= i < ids.len() ==> (#[trigger] ids[i]) < count
    &&& forall|i: int, k: int|
        0 <= i < ids.len() && 0 <= k < ids[i] ==> #[trigger] used_before(ids, i, k)
    &&& forall|k: int| 0 <= k < count ==> #[trigger] used_before(ids, ids.len() as int, k)
}

/// The index list in which every index is replaced by its entry in `remap`.
pub open spec fn remapped_indices(indices: Seq<u32>, remap: Seq<u32>) -> Seq<u32> {
    Seq::new(indices.len(), |i: int| remap[indices[i] as int])
}

/// `remap` is the deduplication table of `vertices` as used by `indices`:
/// two referenced vertices get the same new number exactly when they are
/// equal, the new numbers are `0..unique` in order of first reference, and a
/// vertex that is never referenced gets `NO_VERTEX`.
pub open spec fn is_vertex_remap(
    vertices: Seq<VertexLayout>,
    indices: Seq<u32>,
    remap: Seq<u32>,
    unique: nat,
) -> bool {
    &&& remap.len() == vertices.len()
    &&& unique <= vertices.len()
    &&& forall|v: int|
        0 <= v < vertices.len() && !is_referenced(indices, v) ==> #[trigger] remap[v] == NO_VERTEX
    &&& numbered_in_order(remapped_indices(indices, remap), unique)
    &&& forall|i: int, j: int|
        0 <= i < indices.len() && 0 <= j < indices.len() ==> ((remap[#[trigger] indices[i] as int]
            == remap[#[trigger] indices[j] as int]) <==> vertices[indices[i] as int]
            == vertices[indices[j] as int])
}

/// `v` is one of the vertices of the buffer.
pub open spec fn is_vertex_of(v: VertexLayout, vertices: Seq<VertexLayout>) -> bool {
    exists|i: int| 0 <= i < vertices.len() && #[trigger] vertices[i] == v
}

/// The vertex whose every component is zero.
pub open spec fn zero_vertex() -> VertexLayout {
    VertexLayout { position: [0u32, 0u32, 0u32], normal: [0u32, 0u32, 0u32], uv: [0u32, 0u32] }
}

/// `moved` holds every vertex that `remap` gives a place at that place.
pub open spec fn is_remapped_vertex_buffer(
    vertices: Seq<VertexLayout>,
    remap: Seq<u32>,
    moved: Seq<VertexLayout>,
) -> bool {
    forall|v: int|
        0 <= v < vertices.len() && remap[v] != NO_VERTEX ==> exists|w: int|
            0 <= w < vertices.len() && remap[w] == #[trigger] remap[v] && moved[remap[v] as int]
                == vertices[w]
}

/// `order` lists the numbers `0..order.len()`, each once.
pub open spec fn is_permutation(order: Seq<int>) -> bool {
    &&& forall|t: int| 0 <= t < order.len() ==> 0 <= #[trigger] order[t] < order.len()
    &&& forall|s: int, t: int|
        0 <= s < order.len() && 0 <= t < order.len() && #[trigger] order[s] == #[trigger] order[t]
            ==> s == t
}

/// Triangle `t` of `moved` is triangle `order[t]` of `given`, corner by
/// corner.
pub open spec fn is_triangle_reordering(given: Seq<u32>, moved: Seq<u32>, order: Seq<int>) -> bool {
    &&& moved.len() == given.len()
    &&& order.len() == given.len() / 3
    &&& is_permutation(order)
    &&& forall|t: int|
        0 <= t < order.len() ==> {
            &&& moved[3 * t] == given[3 * #[trigger] order[t]]
            &&& moved[3 * t + 1] == given[3 * order[t] + 1]
            &&& moved[3 * t + 2] == given[3 * order[t] + 2]
        }
}

/// `new_indices` and `new_vertices` are `old_indices` and `old_vertices` with
/// the referenced vertices renumbered `0..count` in order of first use: every
/// corner still reads the vertex it read before.
pub open spec fn is_fetch_order(
    old_vertices: Seq<VertexLayout>,
    old_indices: Seq<u32>,
    new_vertices: Seq<VertexLayout>,
    new_indices: Seq<u32>,
    count: nat,
) -> bool {
    &&& new_indices.len() == old_indices.len()
    &&& new_vertices.len() == old_vertices.len()
    &&& count <= old_vertices.len()
    &&& numbered_in_order(new_indices, count)
    &&& forall|i: int, j: int|
        0 <= i < new_indices.len() && 0 <= j < new_indices.len() ==> ((#[trigger] new_indices[i]
            == #[trigger] new_indices[j]) <==> old_indices[i] == old_indices[j])
    &&& forall|i: int|
        0 <= i < new_indices.len() ==> new_vertices[#[trigger] new_indices[i] as int]
            == old_vertices[old_indices[i] as int]
}

/// Calls `meshopt::generate_vertex_remap` with an index buffer. The optimizer
/// documents that all binary-equal vertices map to one new location, with no
/// gaps in the new numbering; its source numbers the locations in order of
/// first reference and leaves the entry of an unreferenced vertex at all ones.
#[verifier::external_body]
pub(crate) fn generate_vertex_remap(vertices: &Vec<VertexLayout>, indices: &Vec<u32>) -> (r: (
    usize,
    Vec<u32>,
))
    requires
        vertices@.len() < NO_VERTEX,
        indices_in_range(indices@, vertices@.len() as int),
    ensures
        is_vertex_remap(vertices@, indices@, r.1@, r.0 as nat),
{
    meshopt::generate_vertex_remap(vertices.as_slice(), Some(indices.as_slice()))
}

/// Calls `meshopt::remap_index_buffer` with an index buffer: each index is
/// looked up in the remap table.
#[verifier::external_body]
pub(crate) fn remap_index_buffer(indices: &Vec<u32>, vertex_count: usize, remap: &Vec<u32>) -> (r:
    Vec<u32>)
    requires
        indices_in_range(indices@, remap@.len() as int),
        forall|i: int| 0 <= i < indices@.len() ==> remap@[#[trigger] indices@[i] as int] != NO_VERTEX,
    ensures
        r@ == remapped_indices(indices@, remap@),
{
    meshopt::remap_index_buffer(Some(indices.as_slice()), vertex_count, remap.as_slice())
}

/// Calls `meshopt::remap_vertex_buffer`: the result has `vertex_count`
/// vertices, and each source vertex with a place in the remap table is copied
/// to that place. The result starts out as default vertices, which are all
/// zeros, so a place that no vertex is copied to holds the zero vertex.
#[verifier::external_body]
pub(crate) fn remap_vertex_buffer(
    vertices: &Vec<VertexLayout>,
    vertex_count: usize,
    remap: &Vec<u32>,
) -> (r: Vec<VertexLayout>)
    requires
        remap@.len() == vertices@.len(),
        forall|v: int|
            0 <= v < remap@.len() ==> #[trigger] remap@[v] == NO_VERTEX || (remap@[v] < vertex_count
                && remap@[v] < vertices@.len()),
    ensures
        r@.len() == vertex_count,
        is_remapped_vertex_buffer(vertices@, remap@, r@),
        forall|p: int|
            0 <= p < r@.len() ==> is_vertex_of(#[trigger] r@[p], vertices@) || r@[p] == zero_vertex(),
{
    meshopt::remap_vertex_buffer(vertices.as_slice(), vertex_count, remap.as_slice())
}

/// The index list that `meshopt::optimize_vertex_cache_in_place` makes of an
/// index list over `vertex_count` vertices.
pub uninterp spec fn cache_optimized_of(indices: Seq<u32>, vertex_count: usize) -> Seq<u32>;

/// Calls `meshopt::optimize_vertex_cache_in_place`, which reorders the
/// triangles of the index buffer: each triangle of the result is a triangle of
/// the input with its corners in the same order, and each input triangle
/// occurs as often as before. The order that it settles on is a function of
/// what is handed in.
#[verifier::external_body]
pub(crate) fn optimize_vertex_cache(indices: &mut Vec<u32>, vertex_count: usize)
    requires
        old(indices)@.len() % 3 == 0,
        indices_in_range(old(indices)@, vertex_count as int),
    ensures
        final(indices)@ == cache_optimized_of(old(indices)@, vertex_count),
        exists|order: Seq<int>| is_triangle_reordering(old(indices)@, final(indices)@, order),
{
    meshopt::optimize_vertex_cache_in_place(indices.as_mut_slice(), vertex_count)
}

/// Calls `meshopt::optimize_vertex_fetch_in_place`, which moves the
/// referenced vertices to the front of the buffer in order of first use,
/// rewrites the indices to match and returns the number of vertices in use.
/// It writes nothing but vertices of the buffer, so every vertex of the
/// result is one that the buffer held before.
#[verifier::external_body]
pub(crate) fn optimize_vertex_fetch(indices: &mut Vec<u32>, vertices: &mut Vec<VertexLayout>) -> (count:
    usize)
    requires
        indices_in_range(old(indices)@, old(vertices)@.len() as int),
        old(vertices)@.len() < NO_VERTEX,
    ensures
        is_fetch_order(
            old(vertices)@,
            old(indices)@,
            final(vertices)@,
            final(indices)@,
            count as nat,
        ),
        forall|p: int|
            0 <= p < final(vertices)@.len() ==> is_vertex_of(
                #[trigger] final(vertices)@[p],
                old(vertices)@,
            ),
{
    meshopt::optimize_vertex_fetch_in_place(indices.as_mut_slice(), vertices.as_mut_slice())
}

/// The bit pattern is that of a finite number: of no infinity and of no NaN.
pub open spec fn is_finite_bits(bits: u32) -> bool {
    bits & 0x7F80_0000 != 0x7F80_0000
}

/// Every position in the vertex data is a triple of finite numbers. The
/// position of a vertex is the twelve bytes from `position_offset` on.
pub open spec fn positions_are_finite(vertex_bytes: Seq<u8>, stride: usize, position_offset: usize) -> bool {
    forall|v: int, k: int|
        0 <= v < vertex_bytes.len() / (stride as nat) && 0 <= k < 3 ==> is_finite_bits(
            #[trigger] le_u32_at(vertex_bytes, v * stride + position_offset + 4 * k),
        )
}

/// What the clusterizer hands back: clusters whose vertex ranges lie in
/// `vertex_refs`, a list of indices into the vertex buffer that was clustered,
/// and whose triangle ranges lie in `triangles`, a list of positions inside
/// the cluster's own vertex range.
pub struct ClusterSet {
    pub meshlets: Vec<Meshlet>,
    pub vertex_refs: Vec<u32>,
    pub triangles: Vec<u8>,
}

impl View for ClusterSet {
    type V = (Seq<Meshlet>, Seq<u32>, Seq<u8>);

    open spec fn view(&self) -> (Seq<Meshlet>, Seq<u32>, Seq<u8>) {
        (self.meshlets@, self.vertex_refs@, self.triangles@)
    }
}

/// The clusters that `meshopt::build_meshlets` makes of an index list and of
/// vertex data: the meshlets, the list of vertex references and the list of
/// cluster-local triangle corners.
pub uninterp spec fn clusters_of(
    indices: Seq<u32>,
    vertex_bytes: Seq<u8>,
    stride: usize,
    position_offset: usize,
    max_vertices: usize,
    max_triangles: usize,
    cone_weight: u8,
) -> (Seq<Meshlet>, Seq<u32>, Seq<u8>);

/// Calls `meshopt::build_meshlets` on vertex data whose first twelve bytes per
/// vertex, from `position_offset` on, are the position. `cone_weight` is 0 or
/// 1. Positions that are not finite are kept from the clusterizer, whose
/// search for the next triangle compares distances. The clusters that come
/// back are a function of what is handed in; beyond that nothing is claimed
/// of them.
#[verifier::external_body]
pub(crate) fn build_meshlets(
    indices: &Vec<u32>,
    vertex_bytes: &Vec<u8>,
    stride: usize,
    position_offset: usize,
    max_vertices: usize,
    max_triangles: usize,
    cone_weight: u8,
) -> (r: ClusterSet)
    requires
        indices@.len() % 3 == 0,
        12 <= stride <= 256,
        stride % 4 == 0,
        position_offset % 4 == 0,
        position_offset + 12 <= stride,
        vertex_bytes@.len() % (stride as nat) == 0,
        positions_are_finite(vertex_bytes@, stride, position_offset),
        indices_in_range(indices@, (vertex_bytes@.len() / (stride as nat)) as int),
        3 <= max_vertices <= 256,
        1 <= max_triangles <= 512,
        max_triangles % 4 == 0,
        cone_weight <= 1,
    ensures
        r@ == clusters_of(
            indices@,
            vertex_bytes@,
            stride,
            position_offset,
            max_vertices,
            max_triangles,
            cone_weight,
        ),
{
    let adapter = meshopt::VertexDataAdapter::new(vertex_bytes.as_slice(), stride, position_offset)
        .unwrap();
    let built = meshopt::build_meshlets(
        indices.as_slice(),
        &adapter,
        max_vertices,
        max_triangles,
        From::from(cone_weight),
    );
    let meshlets = built.meshlets.iter().map(
        |m| Meshlet::new(m.vertex_offset, m.vertex_count, m.triangle_offset, m.triangle_count),
    ).collect();
    ClusterSet { meshlets, vertex_refs: built.vertices, triangles: built.triangles }
}

/// `reduced` is a simplification of the triangle list `indices` over a buffer
/// of `vertex_count` vertices: a list of whole triangles that is no longer
/// than `indices` and names vertices of that buffer only.
pub open spec fn is_simplification(indices: Seq<u32>, vertex_count: int, reduced: Seq<u32>) -> bool {
    &&& reduced.len() % 3 == 0
    &&& reduced.len() <= indices.len()
    &&& indices_in_range(reduced, vertex_count)
}

/// The index list that `meshopt::simplify_sloppy` makes of an index list and
/// of vertex data, for a target number of indices and a tolerated error.
pub uninterp spec fn simplified_of(
    indices: Seq<u32>,
    vertex_bytes: Seq<u8>,
    stride: usize,
    position_offset: usize,
    target_count: usize,
    target_error: u16,
) -> Seq<u32>;

/// Calls `meshopt::simplify_sloppy` with a target number of indices and a
/// tolerated error, given as a whole multiple of the mesh extent. The index
/// list that comes back is a function of what is handed in.
///
/// The simplifier documents that the result refers to vertices of the buffer
/// it was given and that the target count is reached. Its source shows how:
/// it keeps those triangles of the input whose corners fall into three
/// different cells of a grid, each once, and names each corner by one vertex
/// of its cell; and it only settles on a grid that leaves no more triangles
/// than the target allows. With a tolerated error of one or more the search
/// for the grid starts at a single cell, which leaves no triangle, so the
/// target is kept; with a smaller error it may be exceeded, and no bound but
/// the length of the input is claimed. Which triangles are kept depends on
/// the positions, and nothing is claimed of that. Positions that are not
/// finite are kept from the simplifier, which turns them into whole numbers.
#[verifier::external_body]
pub(crate) fn simplify_sloppy(
    indices: &Vec<u32>,
    vertex_bytes: &Vec<u8>,
    stride: usize,
    position_offset: usize,
    target_count: usize,
    target_error: u16,
) -> (r: Vec<u32>)
    requires
        indices@.len() % 3 == 0,
        12 <= stride <= 256,
        stride % 4 == 0,
        position_offset % 4 == 0,
        position_offset + 12 <= stride,
        vertex_bytes@.len() % (stride as nat) == 0,
        positions_are_finite(vertex_bytes@, stride, position_offset),
        indices_in_range(indices@, (vertex_bytes@.len() / (stride as nat)) as int),
        target_count <= indices@.len(),
    ensures
        r@ == simplified_of(
            indices@,
            vertex_bytes@,
            stride,
            position_offset,
            target_count,
            target_error,
        ),
        is_simplification(indices@, (vertex_bytes@.len() / (stride as nat)) as int, r@),
        target_error >= 1 ==> r@.len() <= target_count,
{
    let adapter = meshopt::VertexDataAdapter::new(vertex_bytes.as_slice(), stride, position_offset)
        .unwrap();
    meshopt::simplify_sloppy(
        indices.as_slice(),
        &adapter,
        target_count,
        From::from(target_error),
        None,
    )
}

} // verus!
