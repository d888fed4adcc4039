//! The mesh extractor: from the raw attribute streams of one scene mesh to
//! clustered, GPU-friendly geometry.
//!
//! For each primitive the extractor gathers the vertices, mirrors them into
//! the runtime's left-handed coordinate system and inverts the winding of the
//! triangles, removes duplicate vertices, orders indices and vertices for the
//! vertex cache, and hands the result to the clusterizer. The clusters that
//! come back are checked and flattened: each meshlet's vertices are copied
//! into its own range of the vertex buffer, and its triangles into its own
//! range of the buffer of cluster-local indices.

use vstd::prelude::*;
use vstd::bytes::lemma_auto_spec_u32_to_from_le_bytes;
use crate::wire::{le_bytes, le_u32_at, push_u32};
use crate::meshlet::{
    negate, negated, Meshlet, VertexLayout, MAX_MESHLET_TRIANGLES, MAX_MESHLET_VERTICES,
};
use crate::mesh_optimizer::{
    cache_optimized_of, generate_vertex_remap, indices_in_range, is_fetch_order, is_permutation, is_referenced,
    is_remapped_vertex_buffer, is_triangle_reordering, is_vertex_remap, numbered_in_order,
    is_finite_bits, is_vertex_of, optimize_vertex_cache, optimize_vertex_fetch, positions_are_finite,
    remap_index_buffer, remap_vertex_buffer, remapped_indices, used_before, zero_vertex,
    ClusterSet, NO_VERTEX, VERTEX_STRIDE,
};
use crate::triangles::{check_same_triangles, holds_same_triangles};

verus! {

/// The most indices the coarse collision proxy of a primitive may have.
pub const MAX_SIMPLIFIED_INDICES: usize = 256;

/// The weight the clusterizer gives to the spread of triangle normals.
pub const CONE_WEIGHT: u8 = 0;

/// The error the simplifier may make, in units of the mesh extent.
pub const SIMPLIFY_TARGET_ERROR: u16 = 1;

/// Why a primitive could not be extracted.
#[derive(Clone, Copy, Debug, PartialEq, Eq, Structural)]
pub enum MeshError {
    /// The primitive has more vertices than a 32-bit index can name.
    TooManyVertices,
    /// An index of the primitive names no vertex.
    IndexOutOfRange,
    /// The clusterizer returned clusters that reach outside their buffers or
    /// exceed the meshlet bounds.
    MalformedClusters,
    /// The clusters hold more vertices or triangle corners than the 32-bit
    /// offsets of a meshlet can address.
    ClustersTooLarge,
    /// An index list that was offered as a collision proxy is too long, is no
    /// list of triangles, or names a vertex that does not exist.
    MalformedSimplification,
    /// A position is no finite number.
    NonFinitePosition,
}

/// The attribute streams of one mesh primitive as the scene file holds them.
/// Positions, normals and texture coordinates are bit patterns of
/// single-precision numbers in the scene's right-handed coordinate system.
pub struct PrimitiveSource {
    pub positions: Option<Vec<[u32; 3]>>,
    pub normals: Option<Vec<[u32; 3]>>,
    pub uvs: Option<Vec<[u32; 2]>>,
    pub indices: Option<Vec<u32>>,
    pub material_index: Option<usize>,
}

/// The primitives of one scene mesh.
pub struct MeshSource {
    pub primitives: Vec<PrimitiveSource>,
}

/// The index list `0, 1, .., count - 1` of a primitive without an index buffer.
pub open spec fn implicit_index_seq(count: nat) -> Seq<u32> {
    Seq::new(count, |i: int| i as u32)
}

pub fn implicit_indices(count: u32) -> (r: Vec<u32>)
    ensures
        r@ == implicit_index_seq(count as nat),
{
    let mut r: Vec<u32> = Vec::new();
    let mut i: u32 = 0;
    while i < count
        invariant
            i <= count,
            r@ == implicit_index_seq(i as nat),
        decreases count - i,
    {
        r.push(i);
        i = i + 1;
    }
    r
}

/// The index list with the second and third corner of every complete
/// triangle exchanged.
pub open spec fn flipped_winding(indices: Seq<u32>) -> Seq<u32> {
    Seq::new(
        indices.len(),
        |i: int|
            if i >= 3 * (indices.len() / 3) {
                indices[i]
            } else if i % 3 == 1 {
                indices[i + 1]
            } else if i % 3 == 2 {
                indices[i - 1]
            } else {
                indices[i]
            },
    )
}

/// Inverts the winding of every triangle: the scene is right-handed, the
/// runtime left-handed.
pub fn flip_winding(indices: &mut Vec<u32>)
    ensures
        final(indices)@ == flipped_winding(old(indices)@),
{
    let triangles: usize = indices.len() / 3;
    let mut t: usize = 0;
    while t < triangles
        invariant
            t <= triangles,
            triangles == old(indices)@.len() / 3,
            indices@.len() == old(indices)@.len(),
            indices@.len() <= usize::MAX,
            forall|i: int|
                0 <= i < 3 * t ==> indices@[i] == #[trigger] flipped_winding(old(indices)@)[i],
            forall|i: int| 3 * t <= i < indices@.len() ==> indices@[i] == #[trigger] old(indices)@[i],
        decreases triangles - t,
    {
        let second: u32 = indices[3 * t + 1];
        let third: u32 = indices[3 * t + 2];
        indices.set(3 * t + 1, third);
        indices.set(3 * t + 2, second);
        t = t + 1;
    }
    assert(indices@ =~= flipped_winding(old(indices)@));
}

/// Flipping the winding twice gives the index list back.
pub proof fn lemma_flip_winding_involution(indices: Seq<u32>)
    ensures
        flipped_winding(flipped_winding(indices)) == indices,
{
    assert(flipped_winding(flipped_winding(indices)) =~= indices);
}

/// The vertex of the runtime for a position, normal and texture coordinate of
/// the scene: the first axis of position and normal is mirrored.
pub open spec fn mirrored_vertex(position: [u32; 3], normal: [u32; 3], uv: [u32; 2]) -> VertexLayout {
    VertexLayout {
        position: [negated(position[0]), position[1], position[2]],
        normal: [negated(normal[0]), normal[1], normal[2]],
        uv: uv,
    }
}

pub fn mirror_vertex(position: &[u32; 3], normal: &[u32; 3], uv: &[u32; 2]) -> (v: VertexLayout)
    ensures
        v == mirrored_vertex(*position, *normal, *uv),
{
    VertexLayout {
        position: [negate(position[0]), position[1], position[2]],
        normal: [negate(normal[0]), normal[1], normal[2]],
        uv: *uv,
    }
}

/// The smallest of three lengths.
pub open spec fn min3(a: int, b: int, c: int) -> int {
    if a <= b && a <= c {
        a
    } else if b <= c {
        b
    } else {
        c
    }
}

/// The vertices of a primitive: as many as the shortest attribute stream has
/// items, each mirrored.
pub open spec fn gathered_vertices(
    positions: Seq<[u32; 3]>,
    normals: Seq<[u32; 3]>,
    uvs: Seq<[u32; 2]>,
) -> Seq<VertexLayout> {
    Seq::new(
        min3(positions.len() as int, normals.len() as int, uvs.len() as int) as nat,
        |i: int| mirrored_vertex(positions[i], normals[i], uvs[i]),
    )
}

pub fn gather_vertices(positions: &Vec<[u32; 3]>, normals: &Vec<[u32; 3]>, uvs: &Vec<[u32; 2]>) -> (r:
    Vec<VertexLayout>)
    ensures
        r@ == gathered_vertices(positions@, normals@, uvs@),
{
    let mut count: usize = positions.len();
    if normals.len() < count {
        count = normals.len();
    }
    if uvs.len() < count {
        count = uvs.len();
    }
    let mut r: Vec<VertexLayout> = Vec::new();
    let mut i: usize = 0;
    while i < count
        invariant
            i <= count,
            count == min3(positions@.len() as int, normals@.len() as int, uvs@.len() as int),
            r@.len() == i,
            forall|j: int|
                0 <= j < i ==> r@[j] == mirrored_vertex(positions@[j], normals@[j], uvs@[j]),
        decreases count - i,
    {
        r.push(mirror_vertex(&positions[i], &normals[i], &uvs[i]));
        i = i + 1;
    }
    assert(r@ =~= gathered_vertices(positions@, normals@, uvs@));
    r
}

/// The geometry `(new_vertices, new_indices)` draws the triangles of
/// `(vertices, indices)`: triangle `t` of the one has, corner by corner, the
/// vertices of triangle `order[t]` of the other.
pub open spec fn draws_same_triangles(
    vertices: Seq<VertexLayout>,
    indices: Seq<u32>,
    new_vertices: Seq<VertexLayout>,
    new_indices: Seq<u32>,
    order: Seq<int>,
) -> bool {
    &&& new_indices.len() == indices.len()
    &&& order.len() == indices.len() / 3
    &&& is_permutation(order)
    &&& forall|t: int|
        0 <= t < order.len() ==> {
            &&& new_vertices[new_indices[3 * t] as int] == vertices[indices[3 * #[trigger] order[t]] as int]
            &&& new_vertices[new_indices[3 * t + 1] as int] == vertices[indices[3 * order[t] + 1] as int]
            &&& new_vertices[new_indices[3 * t + 2] as int] == vertices[indices[3 * order[t] + 2] as int]
        }
}

/// A vertex buffer with the index buffer that draws it.
pub struct Geometry {
    pub vertices: Vec<VertexLayout>,
    pub indices: Vec<u32>,
}

/// What vertex deduplication makes of a vertex buffer and its index buffer.
pub struct Deduplicated {
    /// The number of distinct vertices that the indices refer to.
    pub unique: usize,
    /// The new number of each vertex of the input, `NO_VERTEX` for a vertex
    /// that no index refers to.
    pub remap: Vec<u32>,
    /// The vertex buffer: the distinct vertices first, each at its number.
    pub vertices: Vec<VertexLayout>,
    /// The index buffer, renumbered.
    pub indices: Vec<u32>,
}

/// `d` is the deduplication of `vertices` as used by `indices`: equal
/// vertices have one number, the numbers are given in order of first use,
/// each index is replaced by the number of its vertex, and each distinct
/// vertex stands at its number.
pub open spec fn is_deduplication(vertices: Seq<VertexLayout>, indices: Seq<u32>, d: Deduplicated) -> bool {
    &&& is_vertex_remap(vertices, indices, d.remap@, d.unique as nat)
    &&& d.indices@ == remapped_indices(indices, d.remap@)
    &&& d.vertices@.len() == vertices.len()
    &&& is_remapped_vertex_buffer(vertices, d.remap@, d.vertices@)
}

/// Removes duplicate vertices: computes the remap table of the vertex buffer
/// and applies it to the vertex buffer and to the index buffer. Every corner
/// reads a vertex equal to the one it read before, from among the first
/// `unique` vertices.
pub fn deduplicate(vertices: &Vec<VertexLayout>, indices: &Vec<u32>) -> (d: Deduplicated)
    requires
        vertices@.len() < NO_VERTEX,
        indices_in_range(indices@, vertices@.len() as int),
    ensures
        is_deduplication(vertices@, indices@, d),
        indices_in_range(d.indices@, d.unique as int),
        forall|i: int|
            0 <= i < indices@.len() ==> d.vertices@[#[trigger] d.indices@[i] as int]
                == vertices@[indices@[i] as int],
        forall|p: int|
            0 <= p < d.vertices@.len() ==> is_vertex_of(#[trigger] d.vertices@[p], vertices@)
                || d.vertices@[p] == zero_vertex(),
{
    let vertex_count: usize = vertices.len();
    let (unique, remap) = generate_vertex_remap(vertices, indices);
    let ghost ids = remapped_indices(indices@, remap@);
    assert forall|i: int| 0 <= i < indices@.len() implies remap@[#[trigger] indices@[i] as int]
        != NO_VERTEX by {
        assert(ids[i] < unique);
    }
    assert forall|v: int| 0 <= v < remap@.len() implies #[trigger] remap@[v] == NO_VERTEX
        || remap@[v] < vertex_count by {
        if is_referenced(indices@, v) {
            let i = choose|i: int| 0 <= i < indices@.len() && #[trigger] indices@[i] == v;
            assert(ids[i] < unique);
        }
    }
    let new_indices = remap_index_buffer(indices, vertex_count, &remap);
    let new_vertices = remap_vertex_buffer(vertices, vertex_count, &remap);
    proof {
        lemma_deduplicated_reads_same(vertices@, indices@, remap@, unique as nat, new_vertices@);
        assert forall|i: int| 0 <= i < ids.len() implies (#[trigger] ids[i]) < unique by {}
    }
    Deduplicated { unique, remap, vertices: new_vertices, indices: new_indices }
}

/// No vertex is drawn from two places: two corners that read equal vertices
/// read them through the same index.
pub open spec fn is_deduplicated(vertices: Seq<VertexLayout>, indices: Seq<u32>) -> bool {
    forall|i: int, j: int|
        0 <= i < indices.len() && 0 <= j < indices.len() && vertices[#[trigger] indices[i] as int]
            == vertices[#[trigger] indices[j] as int] ==> indices[i] == indices[j]
}

/// The vertices in use stand at the front of the buffer in the order in which
/// the index list first uses them.
pub open spec fn is_in_fetch_order(vertices: Seq<VertexLayout>, indices: Seq<u32>) -> bool {
    exists|count: nat| count <= vertices.len() && numbered_in_order(indices, count)
}

/// Every vertex of `new_vertices` is a vertex of `vertices` or the zero
/// vertex.
pub open spec fn makes_no_vertex(vertices: Seq<VertexLayout>, new_vertices: Seq<VertexLayout>) -> bool {
    forall|p: int|
        0 <= p < new_vertices.len() ==> is_vertex_of(#[trigger] new_vertices[p], vertices)
            || new_vertices[p] == zero_vertex()
}

/// A buffer made of the vertices of a buffer with finite positions has
/// finite positions.
pub proof fn lemma_no_vertex_made(vertices: Seq<VertexLayout>, new_vertices: Seq<VertexLayout>)
    requires
        makes_no_vertex(vertices, new_vertices),
        has_finite_positions(vertices),
    ensures
        has_finite_positions(new_vertices),
{
    assert(0u32 & 0x7F80_0000 != 0x7F80_0000) by (bit_vector);
    assert forall|p: int, k: int| 0 <= p < new_vertices.len() && 0 <= k < 3 implies is_finite_bits(
        #[trigger] new_vertices[p].position[k],
    ) by {
        if is_vertex_of(new_vertices[p], vertices) {
            let i = choose|i: int| 0 <= i < vertices.len() && #[trigger] vertices[i] == new_vertices[p];
            assert(is_finite_bits(vertices[i].position[k]));
        } else {
            assert(new_vertices[p] == zero_vertex());
            assert(zero_vertex().position[k] == 0);
        }
    }
}

/// `(new_vertices, new_indices)` is what the optimizer makes of the geometry
/// `(vertices, indices)`: the deduplication of the geometry, with its
/// triangles in the order that the vertex cache optimizer gives them and its
/// vertices in the order in which that list first uses them.
pub open spec fn is_cache_and_fetch_order(
    vertices: Seq<VertexLayout>,
    indices: Seq<u32>,
    new_vertices: Seq<VertexLayout>,
    new_indices: Seq<u32>,
) -> bool {
    exists|d: Deduplicated, count: nat|
        is_deduplication(vertices, indices, d) && #[trigger] is_fetch_order(
            d.vertices@,
            cache_optimized_of(d.indices@, vertices.len() as usize),
            new_vertices,
            new_indices,
            count,
        )
}

/// `(new_vertices, new_indices)` is an optimized form of the geometry
/// `(vertices, indices)`: it draws the same triangles, in some order; it draws
/// no vertex from two places; its vertices stand in the order in which they
/// are first used; it holds no vertex that the geometry did not hold, but for
/// the zero vertex; and its triangles stand in the order of the vertex cache
/// optimizer.
pub open spec fn is_optimized(
    vertices: Seq<VertexLayout>,
    indices: Seq<u32>,
    new_vertices: Seq<VertexLayout>,
    new_indices: Seq<u32>,
) -> bool {
    &&& new_vertices.len() == vertices.len()
    &&& indices_in_range(new_indices, new_vertices.len() as int)
    &&& exists|order: Seq<int>|
        draws_same_triangles(vertices, indices, new_vertices, new_indices, order)
    &&& is_deduplicated(new_vertices, new_indices)
    &&& is_in_fetch_order(new_vertices, new_indices)
    &&& makes_no_vertex(vertices, new_vertices)
    &&& is_cache_and_fetch_order(vertices, indices, new_vertices, new_indices)
}

/// Removes duplicate vertices, then orders the triangles for the vertex cache
/// and the vertices for the order in which the triangles fetch them. The
/// result draws the triangles it was given, draws no vertex from two places,
/// and has its vertices in the order of their first use.
pub fn optimize_geometry(vertices: Vec<VertexLayout>, indices: Vec<u32>) -> (r: Geometry)
    requires
        vertices@.len() < NO_VERTEX,
        indices@.len() % 3 == 0,
        indices_in_range(indices@, vertices@.len() as int),
    ensures
        is_optimized(vertices@, indices@, r.vertices@, r.indices@),
{
    let vertex_count: usize = vertices.len();
    let deduplicated = deduplicate(&vertices, &indices);
    let ghost d = deduplicated;
    let ghost remap = deduplicated.remap@;
    let mut new_vertices = deduplicated.vertices;
    let mut new_indices = deduplicated.indices;
    let ghost ids = new_indices@;
    let ghost deduplicated = new_vertices@;
    optimize_vertex_cache(&mut new_indices, vertex_count);
    let ghost cached = new_indices@;
    let ghost order = choose|order: Seq<int>| is_triangle_reordering(ids, cached, order);
    proof {
        lemma_reordering_in_range(ids, cached, order, vertex_count as int);
    }
    let used = optimize_vertex_fetch(&mut new_indices, &mut new_vertices);
    proof {
        let fetched = new_indices@;
        assert forall|t: int| 0 <= t < order.len() implies {
            &&& new_vertices@[fetched[3 * t] as int] == vertices@[indices@[3 * #[trigger] order[t]] as int]
            &&& new_vertices@[fetched[3 * t + 1] as int] == vertices@[indices@[3 * order[t] + 1] as int]
            &&& new_vertices@[fetched[3 * t + 2] as int] == vertices@[indices@[3 * order[t] + 2] as int]
        } by {
            let s = order[t];
            assert(new_vertices@[fetched[3 * t] as int] == deduplicated[cached[3 * t] as int]);
            assert(new_vertices@[fetched[3 * t + 1] as int] == deduplicated[cached[3 * t + 1] as int]);
            assert(new_vertices@[fetched[3 * t + 2] as int] == deduplicated[cached[3 * t + 2] as int]);
            assert(deduplicated[ids[3 * s] as int] == vertices@[indices@[3 * s] as int]);
            assert(deduplicated[ids[3 * s + 1] as int] == vertices@[indices@[3 * s + 1] as int]);
            assert(deduplicated[ids[3 * s + 2] as int] == vertices@[indices@[3 * s + 2] as int]);
        }
        assert(draws_same_triangles(vertices@, indices@, new_vertices@, fetched, order));
        assert forall|i: int| 0 <= i < fetched.len() implies (#[trigger] fetched[i])
            < new_vertices@.len() by {}
        lemma_optimized_is_deduplicated(
            vertices@,
            indices@,
            remap,
            deduplicated,
            cached,
            order,
            new_vertices@,
            fetched,
            used as nat,
        );
        assert forall|p: int| 0 <= p < new_vertices@.len() implies is_vertex_of(
            #[trigger] new_vertices@[p],
            vertices@,
        ) || new_vertices@[p] == zero_vertex() by {
            let q = choose|q: int|
                0 <= q < deduplicated.len() && #[trigger] deduplicated[q] == new_vertices@[p];
            assert(is_vertex_of(deduplicated[q], vertices@) || deduplicated[q] == zero_vertex());
        }
        assert(is_deduplication(vertices@, indices@, d) && is_fetch_order(
            d.vertices@,
            cache_optimized_of(d.indices@, vertices@.len() as usize),
            new_vertices@,
            fetched,
            used as nat,
        ));
        assert(is_deduplicated(new_vertices@, fetched));
        assert(numbered_in_order(fetched, used as nat));
        assert(is_in_fetch_order(new_vertices@, fetched));
    }
    Geometry { vertices: new_vertices, indices: new_indices }
}

/// Reordering the triangles and renumbering the vertices of a deduplicated
/// geometry leaves it deduplicated.
proof fn lemma_optimized_is_deduplicated(
    vertices: Seq<VertexLayout>,
    indices: Seq<u32>,
    remap: Seq<u32>,
    deduplicated: Seq<VertexLayout>,
    cached: Seq<u32>,
    order: Seq<int>,
    final_vertices: Seq<VertexLayout>,
    fetched: Seq<u32>,
    used: nat,
)
    requires
        indices.len() % 3 == 0,
        forall|i: int, j: int|
            0 <= i < indices.len() && 0 <= j < indices.len() ==> ((remap[#[trigger] indices[i] as int]
                == remap[#[trigger] indices[j] as int]) <==> vertices[indices[i] as int]
                == vertices[indices[j] as int]),
        forall|i: int|
            0 <= i < indices.len() ==> deduplicated[#[trigger] remapped_indices(indices, remap)[i] as int]
                == vertices[indices[i] as int],
        is_triangle_reordering(remapped_indices(indices, remap), cached, order),
        is_fetch_order(deduplicated, cached, final_vertices, fetched, used),
    ensures
        is_deduplicated(final_vertices, fetched),
{
    let ids = remapped_indices(indices, remap);
    // Every corner after the reordering is a corner from before it.
    assert forall|i: int| 0 <= i < cached.len() implies exists|a: int|
        0 <= a < ids.len() && #[trigger] cached[i] == ids[a] by {
        let t = i / 3;
        let s = order[t];
        assert(0 <= s < order.len());
        if i % 3 == 0 {
            assert(cached[i] == ids[3 * s]);
        } else if i % 3 == 1 {
            assert(cached[i] == ids[3 * s + 1]);
        } else {
            assert(cached[i] == ids[3 * s + 2]);
        }
    }
    assert forall|i: int, j: int|
        0 <= i < fetched.len() && 0 <= j < fetched.len() && final_vertices[#[trigger] fetched[i] as int]
            == final_vertices[#[trigger] fetched[j] as int] implies fetched[i] == fetched[j] by {
        let a = choose|a: int| 0 <= a < ids.len() && cached[i] == ids[a];
        let b = choose|b: int| 0 <= b < ids.len() && cached[j] == ids[b];
        assert(final_vertices[fetched[i] as int] == deduplicated[cached[i] as int]);
        assert(final_vertices[fetched[j] as int] == deduplicated[cached[j] as int]);
        assert(deduplicated[ids[a] as int] == vertices[indices[a] as int]);
        assert(deduplicated[ids[b] as int] == vertices[indices[b] as int]);
        assert(remap[indices[a] as int] == remap[indices[b] as int]);
        assert(cached[i] == cached[j]);
    }
}

/// After deduplication every corner reads a vertex equal to the one it read
/// before.
pub proof fn lemma_deduplicated_reads_same(
    vertices: Seq<VertexLayout>,
    indices: Seq<u32>,
    remap: Seq<u32>,
    unique: nat,
    moved: Seq<VertexLayout>,
)
    requires
        vertices.len() < NO_VERTEX,
        indices_in_range(indices, vertices.len() as int),
        is_vertex_remap(vertices, indices, remap, unique),
        is_remapped_vertex_buffer(vertices, remap, moved),
    ensures
        forall|i: int|
            0 <= i < indices.len() ==> moved[#[trigger] remapped_indices(indices, remap)[i] as int]
                == vertices[indices[i] as int],
{
    let ids = remapped_indices(indices, remap);
    assert forall|i: int| 0 <= i < indices.len() implies moved[#[trigger] ids[i] as int]
        == vertices[indices[i] as int] by {
        let v = indices[i] as int;
        assert(ids[i] < unique);
        assert(remap[v] != NO_VERTEX);
        let w = choose|w: int|
            0 <= w < vertices.len() && remap[w] == remap[v] && moved[remap[v] as int] == vertices[w];
        if !is_referenced(indices, w) {
            assert(remap[w] == NO_VERTEX);
        }
        let j = choose|j: int| 0 <= j < indices.len() && #[trigger] indices[j] == w;
        assert(remap[indices[i] as int] == remap[indices[j] as int]);
    }
}

/// The first `upto` indices of a deduplicated index list are left as they are
/// by a second deduplication.
proof fn lemma_second_remap_keeps_prefix(
    vertices: Seq<VertexLayout>,
    indices: Seq<u32>,
    remap: Seq<u32>,
    unique: nat,
    moved: Seq<VertexLayout>,
    remap_again: Seq<u32>,
    unique_again: nat,
    upto: int,
)
    requires
        vertices.len() < NO_VERTEX,
        indices_in_range(indices, vertices.len() as int),
        is_vertex_remap(vertices, indices, remap, unique),
        is_remapped_vertex_buffer(vertices, remap, moved),
        moved.len() == vertices.len(),
        is_vertex_remap(moved, remapped_indices(indices, remap), remap_again, unique_again),
        0 <= upto <= indices.len(),
    ensures
        forall|j: int|
            0 <= j < upto ==> #[trigger] remapped_indices(
                remapped_indices(indices, remap),
                remap_again,
            )[j] == remapped_indices(indices, remap)[j],
    decreases upto,
{
    if upto > 0 {
        lemma_second_remap_keeps_prefix(
            vertices,
            indices,
            remap,
            unique,
            moved,
            remap_again,
            unique_again,
            upto - 1,
        );
        lemma_deduplicated_reads_same(vertices, indices, remap, unique, moved);
        let ids = remapped_indices(indices, remap);
        let again = remapped_indices(ids, remap_again);
        let p = upto - 1;
        let w = ids[p];
        // Two corners get one number the second time exactly when they had one
        // number after the first.
        assert forall|a: int| 0 <= a < indices.len() implies ((again[a] == again[p]) <==> #[trigger] ids[a]
            == ids[p]) by {
            assert(moved[ids[a] as int] == vertices[indices[a] as int]);
            assert(moved[ids[p] as int] == vertices[indices[p] as int]);
            assert(remap[indices[a] as int] == ids[a]);
            assert(remap[indices[p] as int] == ids[p]);
        }
        if exists|a: int| 0 <= a < p && ids[a] == w {
            let a = choose|a: int| 0 <= a < p && ids[a] == w;
            assert(again[a] == ids[a]);
            assert(again[a] == again[p]);
        } else {
            if again[p] > w {
                assert(used_before(again, p, w as int));
                let j = choose|j: int| 0 <= j < p && #[trigger] again[j] == w as int;
                assert(again[j] == ids[j]);
            }
            if again[p] < w {
                let k = again[p] as int;
                assert(used_before(ids, p, k));
                let j = choose|j: int| 0 <= j < p && #[trigger] ids[j] == k;
                assert(again[j] == ids[j]);
                assert(again[j] == again[p]);
                assert(ids[j] == ids[p]);
            }
        }
    }
}

/// Running vertex deduplication on a buffer that is already deduplicated
/// yields the identity: the second remap table maps every vertex in use to
/// itself, finds as many unique vertices as the first, and leaves the index
/// list and the vertices in use as they are.
pub proof fn lemma_dedup_idempotent(
    vertices: Seq<VertexLayout>,
    indices: Seq<u32>,
    once: Deduplicated,
    twice: Deduplicated,
)
    requires
        vertices.len() < NO_VERTEX,
        indices_in_range(indices, vertices.len() as int),
        is_deduplication(vertices, indices, once),
        is_deduplication(once.vertices@, once.indices@, twice),
    ensures
        twice.unique == once.unique,
        forall|v: int| 0 <= v < once.unique ==> #[trigger] twice.remap@[v] == v,
        twice.indices@ == once.indices@,
        forall|v: int| 0 <= v < once.unique ==> #[trigger] twice.vertices@[v] == once.vertices@[v],
{
    let remap = once.remap@;
    let unique = once.unique as nat;
    let moved = once.vertices@;
    let remap_again = twice.remap@;
    let unique_again = twice.unique as nat;
    lemma_second_remap_is_identity(
        vertices,
        indices,
        remap,
        unique,
        moved,
        remap_again,
        unique_again,
    );
    assert forall|v: int| 0 <= v < unique implies #[trigger] twice.vertices@[v] == moved[v] by {
        assert(remap_again[v] == v);
        let w = choose|w: int|
            0 <= w < moved.len() && remap_again[w] == remap_again[v] && twice.vertices@[remap_again[v] as int]
                == moved[w];
        if !is_referenced(once.indices@, w) {
            assert(remap_again[w] == NO_VERTEX);
        }
        let j = choose|j: int| 0 <= j < once.indices@.len() && #[trigger] once.indices@[j] == w;
        assert(remapped_indices(indices, remap)[j] < unique);
        assert(remap_again[w] == w);
    }
}

/// The second of two deduplications in a row finds as many unique vertices as
/// the first, maps every vertex in use to itself and leaves the index list as
/// it is.
proof fn lemma_second_remap_is_identity(
    vertices: Seq<VertexLayout>,
    indices: Seq<u32>,
    remap: Seq<u32>,
    unique: nat,
    moved: Seq<VertexLayout>,
    remap_again: Seq<u32>,
    unique_again: nat,
)
    requires
        vertices.len() < NO_VERTEX,
        indices_in_range(indices, vertices.len() as int),
        is_vertex_remap(vertices, indices, remap, unique),
        is_remapped_vertex_buffer(vertices, remap, moved),
        moved.len() == vertices.len(),
        is_vertex_remap(moved, remapped_indices(indices, remap), remap_again, unique_again),
    ensures
        unique_again == unique,
        forall|v: int| 0 <= v < unique ==> #[trigger] remap_again[v] == v,
        remapped_indices(remapped_indices(indices, remap), remap_again) == remapped_indices(
            indices,
            remap,
        ),
{
    let ids = remapped_indices(indices, remap);
    let again = remapped_indices(ids, remap_again);
    lemma_second_remap_keeps_prefix(
        vertices,
        indices,
        remap,
        unique,
        moved,
        remap_again,
        unique_again,
        indices.len() as int,
    );
    assert(again =~= ids);
    assert forall|v: int| 0 <= v < unique implies #[trigger] remap_again[v] == v by {
        assert(used_before(ids, ids.len() as int, v));
        let j = choose|j: int| 0 <= j < ids.len() && #[trigger] ids[j] == v;
        assert(again[j] == remap_again[ids[j] as int]);
    }
    if unique_again > unique {
        assert(used_before(again, again.len() as int, unique as int));
        let j = choose|j: int| 0 <= j < again.len() && #[trigger] again[j] == unique as int;
        assert(ids[j] < unique);
    }
    if unique > unique_again {
        assert(used_before(ids, ids.len() as int, unique_again as int));
        let j = choose|j: int| 0 <= j < ids.len() && #[trigger] ids[j] == unique_again as int;
        assert(again[j] < unique_again);
    }
}

/// The geometry is deduplicated already: its vertices are pairwise different,
/// every one of them is in use, and they stand in the order in which the
/// index list first uses them.
pub open spec fn is_deduplicated_in_order(vertices: Seq<VertexLayout>, indices: Seq<u32>) -> bool {
    &&& forall|a: int, b: int|
        0 <= a < vertices.len() && 0 <= b < vertices.len() && #[trigger] vertices[a]
            == #[trigger] vertices[b] ==> a == b
    &&& numbered_in_order(indices, vertices.len())
}

/// Deduplication leaves a geometry that is deduplicated already as it is: the
/// remap table maps every vertex to itself, nothing collapses, and the index
/// list and the vertices stay what they are.
pub proof fn lemma_deduplicated_is_kept(vertices: Seq<VertexLayout>, indices: Seq<u32>, d: Deduplicated)
    requires
        vertices.len() < NO_VERTEX,
        is_deduplicated_in_order(vertices, indices),
        is_deduplication(vertices, indices, d),
    ensures
        d.unique == vertices.len(),
        forall|v: int| 0 <= v < vertices.len() ==> #[trigger] d.remap@[v] == v,
        d.indices@ == indices,
        d.vertices@ == vertices,
{
    let n = vertices.len();
    let same = Seq::new(n, |v: int| v as u32);
    assert(remapped_indices(indices, same) =~= indices);
    assert forall|v: int| 0 <= v < n implies is_referenced(indices, v) by {
        assert(used_before(indices, indices.len() as int, v));
        let j = choose|j: int| 0 <= j < indices.len() && #[trigger] indices[j] == v;
        assert(indices[j] == v);
    }
    assert(is_vertex_remap(vertices, indices, same, n));
    assert forall|v: int| 0 <= v < n && same[v] != NO_VERTEX implies exists|w: int|
        0 <= w < n && same[w] == #[trigger] same[v] && vertices[same[v] as int] == vertices[w] by {
        assert(same[v] == same[v] && vertices[same[v] as int] == vertices[v]);
    }
    assert(is_remapped_vertex_buffer(vertices, same, vertices));
    lemma_second_remap_is_identity(vertices, indices, same, n, vertices, d.remap@, d.unique as nat);
    assert(d.indices@ =~= indices);
    lemma_deduplicated_reads_same(vertices, indices, d.remap@, d.unique as nat, d.vertices@);
    assert forall|v: int| 0 <= v < n implies d.vertices@[v] == vertices[v] by {
        assert(used_before(indices, indices.len() as int, v));
        let j = choose|j: int| 0 <= j < indices.len() && #[trigger] indices[j] == v;
        assert(remapped_indices(indices, d.remap@)[j] == v);
    }
    assert(d.vertices@ =~= vertices);
}

/// The 32 bytes of a vertex: position, normal and texture coordinate, each
/// component little-endian.
pub open spec fn vertex_le_bytes(v: VertexLayout) -> Seq<u8> {
    le_bytes(v.position[0]) + le_bytes(v.position[1]) + le_bytes(v.position[2]) + le_bytes(
        v.normal[0],
    ) + le_bytes(v.normal[1]) + le_bytes(v.normal[2]) + le_bytes(v.uv[0]) + le_bytes(v.uv[1])
}

/// The bytes of a vertex buffer: those of its vertices, one after the other.
pub open spec fn vertex_buffer_bytes(vertices: Seq<VertexLayout>) -> Seq<u8>
    decreases vertices.len(),
{
    if vertices.len() == 0 {
        Seq::empty()
    } else {
        vertex_buffer_bytes(vertices.drop_last()) + vertex_le_bytes(vertices.last())
    }
}

/// A vertex buffer of `n` vertices has `32 * n` bytes.
pub proof fn lemma_vertex_buffer_bytes_len(vertices: Seq<VertexLayout>)
    ensures
        vertex_buffer_bytes(vertices).len() == 32 * vertices.len(),
    decreases vertices.len(),
{
    lemma_auto_spec_u32_to_from_le_bytes();
    if vertices.len() > 0 {
        lemma_vertex_buffer_bytes_len(vertices.drop_last());
    }
}

/// Writes a vertex buffer out as bytes.
pub fn encode_vertices(vertices: &Vec<VertexLayout>) -> (r: Vec<u8>)
    ensures
        r@ == vertex_buffer_bytes(vertices@),
        r@.len() == 32 * vertices@.len(),
{
    let mut r: Vec<u8> = Vec::new();
    let mut i: usize = 0;
    while i < vertices.len()
        invariant
            i <= vertices@.len(),
            r@ == vertex_buffer_bytes(vertices@.take(i as int)),
        decreases vertices@.len() - i,
    {
        let v: &VertexLayout = &vertices[i];
        let ghost before = r@;
        push_u32(&mut r, v.position[0]);
        push_u32(&mut r, v.position[1]);
        push_u32(&mut r, v.position[2]);
        push_u32(&mut r, v.normal[0]);
        push_u32(&mut r, v.normal[1]);
        push_u32(&mut r, v.normal[2]);
        push_u32(&mut r, v.uv[0]);
        push_u32(&mut r, v.uv[1]);
        proof {
            let next = vertices@.take(i + 1);
            assert(next.drop_last() =~= vertices@.take(i as int));
            assert(next.last() == *v);
            assert(r@ =~= before + vertex_le_bytes(*v));
        }
        i = i + 1;
    }
    proof {
        assert(vertices@.take(vertices@.len() as int) =~= vertices@);
        lemma_vertex_buffer_bytes_len(vertices@);
    }
    r
}

/// Every position of the vertex buffer is a triple of finite numbers.
pub open spec fn has_finite_positions(vertices: Seq<VertexLayout>) -> bool {
    forall|v: int, k: int|
        0 <= v < vertices.len() && 0 <= k < 3 ==> is_finite_bits(#[trigger] vertices[v].position[k])
}

fn is_finite(bits: u32) -> (b: bool)
    ensures
        b == is_finite_bits(bits),
{
    bits & 0x7F80_0000 != 0x7F80_0000
}

/// Tells whether every position of a vertex buffer is finite.
pub fn check_finite_positions(vertices: &Vec<VertexLayout>) -> (b: bool)
    ensures
        b == has_finite_positions(vertices@),
{
    let mut i: usize = 0;
    while i < vertices.len()
        invariant
            i <= vertices@.len(),
            forall|v: int, k: int|
                0 <= v < i && 0 <= k < 3 ==> is_finite_bits(#[trigger] vertices@[v].position[k]),
        decreases vertices@.len() - i,
    {
        let p = &vertices[i].position;
        if !(is_finite(p[0]) && is_finite(p[1]) && is_finite(p[2])) {
            proof {
                let k: int = if !is_finite_bits(p[0]) {
                    0
                } else if !is_finite_bits(p[1]) {
                    1
                } else {
                    2
                };
                assert(!is_finite_bits(vertices@[i as int].position[k]));
            }
            return false;
        }
        i = i + 1;
    }
    true
}

/// Component `k` of the position of vertex `v` stands at byte `32 * v + 4 * k`
/// of the vertex buffer.
pub proof fn lemma_position_at(vertices: Seq<VertexLayout>, v: int, k: int)
    requires
        0 <= v < vertices.len(),
        0 <= k < 3,
    ensures
        le_u32_at(vertex_buffer_bytes(vertices), 32 * v + 4 * k) == vertices[v].position[k],
    decreases vertices.len(),
{
    lemma_auto_spec_u32_to_from_le_bytes();
    let bytes = vertex_buffer_bytes(vertices);
    let shorter = vertex_buffer_bytes(vertices.drop_last());
    let last = vertex_le_bytes(vertices.last());
    lemma_vertex_buffer_bytes_len(vertices.drop_last());
    let at = 32 * v + 4 * k;
    if v < vertices.len() - 1 {
        lemma_position_at(vertices.drop_last(), v, k);
        assert(bytes.subrange(at, at + 4) =~= shorter.subrange(at, at + 4));
    } else {
        let p = vertices.last().position;
        assert(last.len() == 32);
        assert(bytes.subrange(at, at + 4) =~= last.subrange(4 * k, 4 * k + 4));
        assert(last.subrange(4 * k, 4 * k + 4) =~= le_bytes(p[k]));
    }
}

/// The bytes of a vertex buffer with finite positions hold finite positions.
pub proof fn lemma_finite_positions(vertices: Seq<VertexLayout>)
    requires
        has_finite_positions(vertices),
    ensures
        positions_are_finite(vertex_buffer_bytes(vertices), VERTEX_STRIDE, 0),
{
    lemma_vertex_buffer_bytes_len(vertices);
    let bytes = vertex_buffer_bytes(vertices);
    assert forall|v: int, k: int| 0 <= v < bytes.len() / (VERTEX_STRIDE as nat) && 0 <= k < 3 implies is_finite_bits(
        #[trigger] le_u32_at(bytes, v * VERTEX_STRIDE + 0 + 4 * k),
    ) by {
        lemma_position_at(vertices, v, k);
        assert(is_finite_bits(vertices[v].position[k]));
    }
}

/// A cluster of the clusterizer is usable: it holds at least one triangle, it
/// keeps the meshlet bounds, its ranges lie inside the two buffers, the
/// vertices it refers to exist, and its triangle corners name vertices of its
/// own range.
pub open spec fn cluster_is_valid(
    m: Meshlet,
    vertex_refs: Seq<u32>,
    triangles: Seq<u8>,
    vertex_count: int,
) -> bool {
    &&& m.vertex_count <= MAX_MESHLET_VERTICES
    &&& 1 <= m.triangle_count <= MAX_MESHLET_TRIANGLES
    &&& m.vertex_end() <= vertex_refs.len()
    &&& m.triangle_end() <= triangles.len()
    &&& forall|j: int|
        m.vertex_offset <= j < m.vertex_end() ==> (#[trigger] vertex_refs[j]) < vertex_count
    &&& forall|j: int|
        m.triangle_offset <= j < m.triangle_end() ==> (#[trigger] triangles[j]) < m.vertex_count
}

/// Every cluster is usable.
pub open spec fn clusters_are_valid(
    meshlets: Seq<Meshlet>,
    vertex_refs: Seq<u32>,
    triangles: Seq<u8>,
    vertex_count: int,
) -> bool {
    forall|k: int|
        0 <= k < meshlets.len() ==> cluster_is_valid(
            #[trigger] meshlets[k],
            vertex_refs,
            triangles,
            vertex_count,
        )
}

pub fn check_cluster(m: &Meshlet, vertex_refs: &Vec<u32>, triangles: &Vec<u8>, vertex_count: usize) -> (b:
    bool)
    ensures
        b == cluster_is_valid(*m, vertex_refs@, triangles@, vertex_count as int),
{
    if m.vertex_count as usize > MAX_MESHLET_VERTICES || m.triangle_count as usize
        > MAX_MESHLET_TRIANGLES || m.triangle_count == 0 {
        return false;
    }
    let vertex_end: u64 = m.vertex_offset as u64 + m.vertex_count as u64;
    let triangle_end: u64 = m.triangle_offset as u64 + 3 * (m.triangle_count as u64);
    if vertex_end > vertex_refs.len() as u64 || triangle_end > triangles.len() as u64 {
        return false;
    }
    let mut j: usize = m.vertex_offset as usize;
    while j < vertex_end as usize
        invariant
            m.vertex_offset <= j <= vertex_end,
            vertex_end == m.vertex_end(),
            vertex_end <= vertex_refs@.len(),
            forall|i: int| m.vertex_offset <= i < j ==> (#[trigger] vertex_refs@[i]) < vertex_count,
        decreases vertex_end - j,
    {
        if vertex_refs[j] as usize >= vertex_count {
            return false;
        }
        j = j + 1;
    }
    let mut j: usize = m.triangle_offset as usize;
    while j < triangle_end as usize
        invariant
            m.triangle_offset <= j <= triangle_end,
            triangle_end == m.triangle_end(),
            triangle_end <= triangles@.len(),
            forall|i: int| m.triangle_offset <= i < j ==> (#[trigger] triangles@[i]) < m.vertex_count,
        decreases triangle_end - j,
    {
        if triangles[j] as u32 >= m.vertex_count {
            return false;
        }
        j = j + 1;
    }
    true
}

pub fn check_clusters(clusters: &ClusterSet, vertex_count: usize) -> (b: bool)
    ensures
        b == clusters_are_valid(
            clusters.meshlets@,
            clusters.vertex_refs@,
            clusters.triangles@,
            vertex_count as int,
        ),
{
    let mut k: usize = 0;
    while k < clusters.meshlets.len()
        invariant
            k <= clusters.meshlets@.len(),
            forall|i: int|
                0 <= i < k ==> cluster_is_valid(
                    #[trigger] clusters.meshlets@[i],
                    clusters.vertex_refs@,
                    clusters.triangles@,
                    vertex_count as int,
                ),
        decreases clusters.meshlets@.len() - k,
    {
        if !check_cluster(&clusters.meshlets[k], &clusters.vertex_refs, &clusters.triangles, vertex_count) {
            return false;
        }
        k = k + 1;
    }
    true
}

/// The number of vertices of the first `k` meshlets.
pub open spec fn vertex_total(meshlets: Seq<Meshlet>, k: int) -> int
    decreases k,
{
    if k <= 0 {
        0
    } else {
        vertex_total(meshlets, k - 1) + meshlets[k - 1].vertex_count
    }
}

/// The number of triangle corners of the first `k` meshlets.
pub open spec fn corner_total(meshlets: Seq<Meshlet>, k: int) -> int
    decreases k,
{
    if k <= 0 {
        0
    } else {
        corner_total(meshlets, k - 1) + 3 * meshlets[k - 1].triangle_count
    }
}

/// The totals never fall as more meshlets are counted.
pub proof fn lemma_totals_monotonic(meshlets: Seq<Meshlet>, a: int, b: int)
    requires
        a <= b,
    ensures
        vertex_total(meshlets, a) <= vertex_total(meshlets, b),
        corner_total(meshlets, a) <= corner_total(meshlets, b),
        0 <= vertex_total(meshlets, a),
        0 <= corner_total(meshlets, a),
    decreases b - a, a,
{
    if a < b {
        lemma_totals_monotonic(meshlets, a, b - 1);
    } else if a > 0 {
        lemma_totals_monotonic(meshlets, a - 1, a - 1);
    }
}

/// The totals of two lists of meshlets with the same counts are the same.
pub proof fn lemma_totals_by_counts(a: Seq<Meshlet>, b: Seq<Meshlet>, k: int)
    requires
        k <= a.len(),
        a.len() == b.len(),
        forall|i: int|
            0 <= i < a.len() ==> (#[trigger] a[i]).vertex_count == b[i].vertex_count
                && a[i].triangle_count == b[i].triangle_count,
    ensures
        vertex_total(a, k) == vertex_total(b, k),
        corner_total(a, k) == corner_total(b, k),
    decreases k,
{
    if k > 0 {
        lemma_totals_by_counts(a, b, k - 1);
    }
}

/// Vertex position `p` lies in the range of meshlet `m`.
pub open spec fn owns_vertex(m: Meshlet, p: int) -> bool {
    m.vertex_offset <= p < m.vertex_end()
}

/// Triangle corner `c` lies in the range of meshlet `m`.
pub open spec fn owns_corner(m: Meshlet, c: int) -> bool {
    m.triangle_offset <= c < m.triangle_end()
}

/// The clustered geometry of one mesh primitive.
pub struct PrimitiveMeshData {
    /// The clusters, each with its own range of `vertices` and of
    /// `meshlet_indices`.
    pub meshlets: Vec<Meshlet>,
    /// The vertices, cluster by cluster.
    pub vertices: Vec<VertexLayout>,
    /// The triangle corners, cluster by cluster; each names a vertex by its
    /// place in the cluster's own range.
    pub meshlet_indices: Vec<u8>,
    /// The same triangle corners as places in `vertices`.
    pub whole_mesh_indices: Vec<u32>,
    /// A coarse index list over `vertices`, used as a collision proxy.
    pub simplified_indices: Vec<u32>,
    pub material_index: usize,
}

/// The primitives of one scene mesh, in the order of the scene.
pub struct MeshData {
    pub primitive_meshes: Vec<PrimitiveMeshData>,
}

impl PrimitiveMeshData {
    /// The meshlets are not empty, keep their bounds and lie one after the
    /// other: the vertex ranges fill `vertices` and the triangle ranges fill
    /// `meshlet_indices`, both without gap or overlap.
    pub open spec fn meshlets_tile(&self) -> bool {
        let m = self.meshlets@;
        &&& forall|k: int|
            0 <= k < m.len() ==> {
                &&& (#[trigger] m[k]).vertex_offset == vertex_total(m, k)
                &&& m[k].triangle_offset == corner_total(m, k)
                &&& 1 <= m[k].vertex_count <= MAX_MESHLET_VERTICES
                &&& 1 <= m[k].triangle_count <= MAX_MESHLET_TRIANGLES
            }
        &&& self.vertices@.len() == vertex_total(m, m.len() as int)
        &&& self.meshlet_indices@.len() == corner_total(m, m.len() as int)
    }

    /// Every triangle corner names a vertex of its own meshlet, and the
    /// whole-mesh list names the same vertex by its place in `vertices`.
    pub open spec fn corners_agree(&self) -> bool {
        let m = self.meshlets@;
        &&& self.whole_mesh_indices@.len() == self.meshlet_indices@.len()
        &&& forall|k: int, c: int|
            #![trigger m[k], self.meshlet_indices@[c]]
            0 <= k < m.len() && owns_corner(m[k], c) ==> {
                &&& self.meshlet_indices@[c] < m[k].vertex_count
                &&& self.whole_mesh_indices@[c] == self.meshlet_indices@[c] + m[k].vertex_offset
            }
    }

    /// The collision proxy is a list of at most 256 indices, three per
    /// triangle, each naming a vertex.
    pub open spec fn proxy_fits(&self) -> bool {
        &&& self.simplified_indices@.len() <= MAX_SIMPLIFIED_INDICES
        &&& self.simplified_indices@.len() % 3 == 0
        &&& indices_in_range(self.simplified_indices@, self.vertices@.len() as int)
    }

    /// The invariant of a clustered primitive.
    pub open spec fn wf(&self) -> bool {
        &&& self.meshlets_tile()
        &&& self.corners_agree()
        &&& self.proxy_fits()
    }
}

/// Every triangle corner below the total of the first `n` meshlets lies in
/// the range of one of them.
proof fn lemma_corner_has_owner(meshlets: Seq<Meshlet>, c: int, n: int)
    requires
        0 <= n <= meshlets.len(),
        0 <= c < corner_total(meshlets, n),
        forall|k: int|
            0 <= k < meshlets.len() ==> (#[trigger] meshlets[k]).triangle_offset == corner_total(
                meshlets,
                k,
            ),
    ensures
        exists|k: int| 0 <= k < n && owns_corner(#[trigger] meshlets[k], c),
    decreases n,
{
    if c < corner_total(meshlets, n - 1) {
        lemma_corner_has_owner(meshlets, c, n - 1);
    } else {
        assert(owns_corner(meshlets[n - 1], c));
    }
}

/// Every vertex below the total of the first `n` meshlets lies in the range
/// of one of them.
proof fn lemma_vertex_has_owner(meshlets: Seq<Meshlet>, p: int, n: int)
    requires
        0 <= n <= meshlets.len(),
        0 <= p < vertex_total(meshlets, n),
        forall|k: int|
            0 <= k < meshlets.len() ==> (#[trigger] meshlets[k]).vertex_offset == vertex_total(
                meshlets,
                k,
            ),
    ensures
        exists|k: int| 0 <= k < n && owns_vertex(#[trigger] meshlets[k], p),
    decreases n,
{
    if p < vertex_total(meshlets, n - 1) {
        lemma_vertex_has_owner(meshlets, p, n - 1);
    } else {
        assert(owns_vertex(meshlets[n - 1], p));
    }
}

/// Flattening makes no position: every vertex of the flattening of usable
/// clusters is a vertex of the buffer that was clustered. If the positions
/// of that buffer are finite, so are those of the flattening.
pub proof fn lemma_flattening_keeps_finite(
    vertices: Seq<VertexLayout>,
    source: Seq<Meshlet>,
    vertex_refs: Seq<u32>,
    triangles: Seq<u8>,
    mesh: &PrimitiveMeshData,
)
    requires
        clusters_are_valid(source, vertex_refs, triangles, vertices.len() as int),
        is_flattening(vertices, source, vertex_refs, triangles, mesh),
        mesh.wf(),
        has_finite_positions(vertices),
    ensures
        has_finite_positions(mesh.vertices@),
{
    let m = mesh.meshlets@;
    assert forall|p: int, c: int| 0 <= p < mesh.vertices@.len() && 0 <= c < 3 implies is_finite_bits(
        #[trigger] mesh.vertices@[p].position[c],
    ) by {
        lemma_vertex_has_owner(m, p, m.len() as int);
        let k = choose|k: int| 0 <= k < m.len() && owns_vertex(#[trigger] m[k], p);
        assert(cluster_is_valid(source[k], vertex_refs, triangles, vertices.len() as int));
        let j = source[k].vertex_offset + (p - m[k].vertex_offset);
        assert(mesh.vertices@[p] == vertices[vertex_refs[j] as int]);
        assert(vertex_refs[j] < vertices.len());
        assert(is_finite_bits(vertices[vertex_refs[j] as int].position[c]));
    }
}

/// Partition: every corner of the whole-mesh triangle list lies in the
/// triangle range of exactly one meshlet. With `meshlets_tile`, which says
/// that the ranges follow each other from the first corner to the last, the
/// triangle ranges cover the whole-mesh list with no gap and no duplicate.
pub proof fn lemma_partition(mesh: &PrimitiveMeshData, c: int)
    requires
        mesh.wf(),
        0 <= c < mesh.whole_mesh_indices@.len(),
    ensures
        exists|k: int|
            {
                &&& 0 <= k < mesh.meshlets@.len()
                &&& owns_corner(#[trigger] mesh.meshlets@[k], c)
                &&& forall|other: int|
                    0 <= other < mesh.meshlets@.len() && owns_corner(
                        #[trigger] mesh.meshlets@[other],
                        c,
                    ) ==> other == k
            },
{
    let m = mesh.meshlets@;
    lemma_corner_has_owner(m, c, m.len() as int);
    let k = choose|k: int| 0 <= k < m.len() && owns_corner(#[trigger] m[k], c);
    assert forall|other: int| 0 <= other < m.len() && owns_corner(#[trigger] m[other], c) implies other
        == k by {
        if other < k {
            lemma_totals_monotonic(m, other + 1, k);
        }
        if k < other {
            lemma_totals_monotonic(m, k + 1, other);
        }
    }
}

/// The whole-mesh list of a clustered primitive names only vertices that
/// exist, and it is a list of triangles.
pub proof fn lemma_whole_mesh_in_range(mesh: &PrimitiveMeshData)
    requires
        mesh.wf(),
    ensures
        indices_in_range(mesh.whole_mesh_indices@, mesh.vertices@.len() as int),
        mesh.whole_mesh_indices@.len() % 3 == 0,
{
    let m = mesh.meshlets@;
    assert forall|c: int| 0 <= c < mesh.whole_mesh_indices@.len() implies (
    #[trigger] mesh.whole_mesh_indices@[c]) < mesh.vertices@.len() by {
        lemma_corner_has_owner(m, c, m.len() as int);
        let k = choose|k: int| 0 <= k < m.len() && owns_corner(#[trigger] m[k], c);
        assert(mesh.meshlet_indices@[c] < m[k].vertex_count);
        lemma_totals_monotonic(m, k + 1, m.len() as int);
    }
    lemma_corner_total_is_triple(m, m.len() as int);
}

/// The number of triangle corners is a multiple of three.
pub proof fn lemma_corner_total_is_triple(meshlets: Seq<Meshlet>, k: int)
    ensures
        corner_total(meshlets, k) % 3 == 0,
    decreases k,
{
    if k > 0 {
        lemma_corner_total_is_triple(meshlets, k - 1);
    }
}

/// The vertices of one cluster, looked up in the buffer that was clustered.
pub open spec fn cluster_vertices(
    vertices: Seq<VertexLayout>,
    vertex_refs: Seq<u32>,
    m: Meshlet,
) -> Seq<VertexLayout> {
    Seq::new(m.vertex_count as nat, |j: int| vertices[vertex_refs[m.vertex_offset + j] as int])
}

/// The triangle corners of one cluster as places in the flattened vertex
/// buffer, where the cluster's vertices start at `base`.
pub open spec fn cluster_whole_mesh(triangles: Seq<u8>, m: Meshlet, base: int) -> Seq<u32> {
    Seq::new((3 * m.triangle_count) as nat, |j: int| (triangles[m.triangle_offset + j] + base) as u32)
}

fn append_cluster_vertices(
    flat: &mut Vec<VertexLayout>,
    vertices: &Vec<VertexLayout>,
    vertex_refs: &Vec<u32>,
    m: &Meshlet,
)
    requires
        m.vertex_end() <= vertex_refs@.len(),
        forall|j: int|
            m.vertex_offset <= j < m.vertex_end() ==> (#[trigger] vertex_refs@[j]) < vertices@.len(),
    ensures
        final(flat)@ == old(flat)@ + cluster_vertices(vertices@, vertex_refs@, *m),
{
    let limit: usize = vertex_refs.len();
    let start: usize = m.vertex_offset as usize;
    let count: usize = m.vertex_count as usize;
    let mut j: usize = 0;
    while j < count
        invariant
            j <= count,
            count == m.vertex_count,
            start == m.vertex_offset,
            m.vertex_end() <= vertex_refs@.len() <= usize::MAX,
            forall|i: int|
                m.vertex_offset <= i < m.vertex_end() ==> (#[trigger] vertex_refs@[i])
                    < vertices@.len(),
            flat@ == old(flat)@ + cluster_vertices(vertices@, vertex_refs@, *m).take(j as int),
        decreases count - j,
    {
        let source: usize = vertex_refs[start + j] as usize;
        flat.push(vertices[source]);
        assert(cluster_vertices(vertices@, vertex_refs@, *m).take(j + 1) =~= cluster_vertices(
            vertices@,
            vertex_refs@,
            *m,
        ).take(j as int).push(vertices@[source as int]));
        j = j + 1;
    }
    assert(cluster_vertices(vertices@, vertex_refs@, *m).take(count as int) =~= cluster_vertices(
        vertices@,
        vertex_refs@,
        *m,
    ));
}

fn append_cluster_corners(
    local: &mut Vec<u8>,
    whole: &mut Vec<u32>,
    triangles: &Vec<u8>,
    m: &Meshlet,
    base: u32,
)
    requires
        m.triangle_end() <= triangles@.len(),
        base + m.vertex_count <= u32::MAX,
        forall|j: int|
            m.triangle_offset <= j < m.triangle_end() ==> (#[trigger] triangles@[j]) < m.vertex_count,
    ensures
        final(local)@ == old(local)@ + triangles@.subrange(
            m.triangle_offset as int,
            m.triangle_end(),
        ),
        final(whole)@ == old(whole)@ + cluster_whole_mesh(triangles@, *m, base as int),
{
    let limit: usize = triangles.len();
    let start: usize = m.triangle_offset as usize;
    let count: usize = 3 * (m.triangle_count as usize);
    let ghost corners = triangles@.subrange(m.triangle_offset as int, m.triangle_end());
    let ghost places = cluster_whole_mesh(triangles@, *m, base as int);
    let mut j: usize = 0;
    while j < count
        invariant
            j <= count,
            count == 3 * m.triangle_count,
            start == m.triangle_offset,
            m.triangle_end() <= triangles@.len() <= usize::MAX,
            base + m.vertex_count <= u32::MAX,
            forall|i: int|
                m.triangle_offset <= i < m.triangle_end() ==> (#[trigger] triangles@[i])
                    < m.vertex_count,
            corners == triangles@.subrange(m.triangle_offset as int, m.triangle_end()),
            places == cluster_whole_mesh(triangles@, *m, base as int),
            local@ == old(local)@ + corners.take(j as int),
            whole@ == old(whole)@ + places.take(j as int),
        decreases count - j,
    {
        let corner: u8 = triangles[start + j];
        local.push(corner);
        whole.push(corner as u32 + base);
        assert(corners.take(j + 1) =~= corners.take(j as int).push(corner));
        assert(places.take(j + 1) =~= places.take(j as int).push((corner + base) as u32));
        j = j + 1;
    }
    assert(corners.take(count as int) =~= corners);
    assert(places.take(count as int) =~= places);
}

/// `mesh` is the flattening of the clusters `source` over `vertices`: the
/// meshlets keep their counts and lie one after the other; each meshlet's
/// range of the vertex buffer holds the vertices the cluster referred to, in
/// the cluster's order; its range of the local indices holds the cluster's
/// triangle corners; and the whole-mesh list holds the same corners as places
/// in the new vertex buffer.
pub open spec fn is_flattening(
    vertices: Seq<VertexLayout>,
    source: Seq<Meshlet>,
    vertex_refs: Seq<u32>,
    triangles: Seq<u8>,
    mesh: &PrimitiveMeshData,
) -> bool {
    let m = mesh.meshlets@;
    &&& m.len() == source.len()
    &&& forall|k: int|
        0 <= k < m.len() ==> #[trigger] m[k] == (Meshlet {
            vertex_offset: vertex_total(source, k) as u32,
            vertex_count: source[k].vertex_count,
            triangle_offset: corner_total(source, k) as u32,
            triangle_count: source[k].triangle_count,
        })
    &&& mesh.vertices@.len() == vertex_total(source, source.len() as int)
    &&& mesh.meshlet_indices@.len() == corner_total(source, source.len() as int)
    &&& mesh.whole_mesh_indices@.len() == mesh.meshlet_indices@.len()
    &&& forall|k: int, p: int|
        #![trigger m[k], mesh.vertices@[p]]
        0 <= k < m.len() && owns_vertex(m[k], p) ==> mesh.vertices@[p]
            == vertices[vertex_refs[source[k].vertex_offset + (p - m[k].vertex_offset)] as int]
    &&& forall|k: int, c: int|
        #![trigger m[k], mesh.meshlet_indices@[c]]
        0 <= k < m.len() && owns_corner(m[k], c) ==> {
            &&& mesh.meshlet_indices@[c] == triangles[source[k].triangle_offset + (c
                - m[k].triangle_offset)]
            &&& mesh.whole_mesh_indices@[c] == mesh.meshlet_indices@[c] + m[k].vertex_offset
        }
}

/// The totals of all clusters fit the 32-bit offsets of a meshlet.
pub open spec fn clusters_fit(source: Seq<Meshlet>) -> bool {
    &&& vertex_total(source, source.len() as int) <= u32::MAX
    &&& corner_total(source, source.len() as int) <= u32::MAX
}

/// Checks the clusters that the clusterizer returned for a vertex buffer and
/// flattens them: the vertices of each meshlet are copied into the meshlet's
/// own range of a new vertex buffer, its triangle corners are packed into its
/// own range of the local indices, and the whole-mesh triangle list is
/// rebuilt from them. The collision proxy of the result is empty.
///
/// Fails with `MalformedClusters` exactly when some cluster is not usable,
/// and with `ClustersTooLarge` exactly when all are but their totals do not fit.
pub fn flatten_clusters(vertices: &Vec<VertexLayout>, clusters: &ClusterSet, material_index: usize) -> (r:
    Result<PrimitiveMeshData, MeshError>)
    ensures
        match r {
            Ok(mesh) => {
                &&& clusters_are_valid(
                    clusters.meshlets@,
                    clusters.vertex_refs@,
                    clusters.triangles@,
                    vertices@.len() as int,
                )
                &&& clusters_fit(clusters.meshlets@)
                &&& is_flattening(
                    vertices@,
                    clusters.meshlets@,
                    clusters.vertex_refs@,
                    clusters.triangles@,
                    &mesh,
                )
                &&& mesh.simplified_indices@.len() == 0
                &&& mesh.material_index == material_index
                &&& mesh.wf()
            },
            Err(MeshError::MalformedClusters) => !clusters_are_valid(
                clusters.meshlets@,
                clusters.vertex_refs@,
                clusters.triangles@,
                vertices@.len() as int,
            ),
            Err(MeshError::ClustersTooLarge) => clusters_are_valid(
                clusters.meshlets@,
                clusters.vertex_refs@,
                clusters.triangles@,
                vertices@.len() as int,
            ) && !clusters_fit(clusters.meshlets@),
            Err(_) => false,
        },
{
    if !check_clusters(clusters, vertices.len()) {
        return Err(MeshError::MalformedClusters);
    }
    let ghost source = clusters.meshlets@;
    let ghost refs = clusters.vertex_refs@;
    let ghost tris = clusters.triangles@;
    let count: usize = clusters.meshlets.len();
    let mut mesh = PrimitiveMeshData {
        meshlets: Vec::new(),
        vertices: Vec::new(),
        meshlet_indices: Vec::new(),
        whole_mesh_indices: Vec::new(),
        simplified_indices: Vec::new(),
        material_index,
    };
    let mut vertex_base: u32 = 0;
    let mut corner_base: u32 = 0;
    let mut k: usize = 0;
    while k < count
        invariant
            k <= count,
            count == source.len(),
            source == clusters.meshlets@,
            refs == clusters.vertex_refs@,
            tris == clusters.triangles@,
            clusters_are_valid(source, refs, tris, vertices@.len() as int),
            vertex_base == vertex_total(source, k as int),
            corner_base == corner_total(source, k as int),
            mesh.meshlets@.len() == k,
            mesh.vertices@.len() == vertex_base,
            mesh.meshlet_indices@.len() == corner_base,
            mesh.whole_mesh_indices@.len() == corner_base,
            mesh.simplified_indices@.len() == 0,
            mesh.material_index == material_index,
            forall|i: int|
                0 <= i < k ==> #[trigger] mesh.meshlets@[i] == (Meshlet {
                    vertex_offset: vertex_total(source, i) as u32,
                    vertex_count: source[i].vertex_count,
                    triangle_offset: corner_total(source, i) as u32,
                    triangle_count: source[i].triangle_count,
                }),
            forall|i: int, p: int|
                #![trigger mesh.meshlets@[i], mesh.vertices@[p]]
                0 <= i < k && owns_vertex(mesh.meshlets@[i], p) ==> mesh.vertices@[p]
                    == vertices@[refs[source[i].vertex_offset + (p
                    - mesh.meshlets@[i].vertex_offset)] as int],
            forall|i: int, c: int|
                #![trigger mesh.meshlets@[i], mesh.meshlet_indices@[c]]
                0 <= i < k && owns_corner(mesh.meshlets@[i], c) ==> {
                    &&& mesh.meshlet_indices@[c] == tris[source[i].triangle_offset + (c
                        - mesh.meshlets@[i].triangle_offset)]
                    &&& mesh.whole_mesh_indices@[c] == mesh.meshlet_indices@[c]
                        + mesh.meshlets@[i].vertex_offset
                },
        decreases count - k,
    {
        let m: Meshlet = clusters.meshlets[k];
        assert(cluster_is_valid(source[k as int], refs, tris, vertices@.len() as int));
        let next_vertex_base: u64 = vertex_base as u64 + m.vertex_count as u64;
        let next_corner_base: u64 = corner_base as u64 + 3 * (m.triangle_count as u64);
        if next_vertex_base > u32::MAX as u64 || next_corner_base > u32::MAX as u64 {
            proof {
                lemma_totals_monotonic(source, k + 1, count as int);
            }
            return Err(MeshError::ClustersTooLarge);
        }
        let ghost before = mesh;
        mesh.meshlets.push(Meshlet::new(vertex_base, m.vertex_count, corner_base, m.triangle_count));
        append_cluster_vertices(&mut mesh.vertices, vertices, &clusters.vertex_refs, &m);
        append_cluster_corners(
            &mut mesh.meshlet_indices,
            &mut mesh.whole_mesh_indices,
            &clusters.triangles,
            &m,
            vertex_base,
        );
        proof {
            let placed = mesh.meshlets@[k as int];
            lemma_totals_monotonic(source, 0, k as int);
            assert forall|i: int, p: int|
                #![trigger mesh.meshlets@[i], mesh.vertices@[p]]
                0 <= i < k + 1 && owns_vertex(mesh.meshlets@[i], p) implies mesh.vertices@[p]
                == vertices@[refs[source[i].vertex_offset + (p
                - mesh.meshlets@[i].vertex_offset)] as int] by {
                if i < k {
                    assert(mesh.meshlets@[i] == before.meshlets@[i]);
                    lemma_totals_monotonic(source, i, i + 1);
                    lemma_totals_monotonic(source, i + 1, k as int);
                    assert(mesh.vertices@[p] == before.vertices@[p]);
                } else {
                    assert(mesh.vertices@[p] == cluster_vertices(vertices@, refs, m)[p
                        - vertex_base]);
                }
            }
            assert forall|i: int, c: int|
                #![trigger mesh.meshlets@[i], mesh.meshlet_indices@[c]]
                0 <= i < k + 1 && owns_corner(mesh.meshlets@[i], c) implies {
                &&& mesh.meshlet_indices@[c] == tris[source[i].triangle_offset + (c
                    - mesh.meshlets@[i].triangle_offset)]
                &&& mesh.whole_mesh_indices@[c] == mesh.meshlet_indices@[c]
                    + mesh.meshlets@[i].vertex_offset
            } by {
                if i < k {
                    assert(mesh.meshlets@[i] == before.meshlets@[i]);
                    lemma_totals_monotonic(source, i, i + 1);
                    lemma_totals_monotonic(source, i + 1, k as int);
                    assert(mesh.meshlet_indices@[c] == before.meshlet_indices@[c]);
                    assert(mesh.whole_mesh_indices@[c] == before.whole_mesh_indices@[c]);
                } else {
                    let j = c - corner_base;
                    assert(mesh.meshlet_indices@[c] == tris.subrange(
                        m.triangle_offset as int,
                        m.triangle_end(),
                    )[j]);
                    assert(mesh.whole_mesh_indices@[c] == cluster_whole_mesh(
                        tris,
                        m,
                        vertex_base as int,
                    )[j]);
                    assert(tris[m.triangle_offset + j] < m.vertex_count);
                }
            }
        }
        vertex_base = next_vertex_base as u32;
        corner_base = next_corner_base as u32;
        k = k + 1;
    }
    proof {
        lemma_flattening_is_wf(vertices@, source, refs, tris, &mesh);
    }
    Ok(mesh)
}

/// The clusters hold as many triangle corners as the index list that was
/// clustered.
pub open spec fn clusters_cover(source: Seq<Meshlet>, index_count: int) -> bool {
    corner_total(source, source.len() as int) == index_count
}

impl Geometry {
    /// The geometry is sound: its indices make whole triangles and name
    /// vertices that exist.
    pub open spec fn wf(&self) -> bool {
        &&& self.indices@.len() % 3 == 0
        &&& indices_in_range(self.indices@, self.vertices@.len() as int)
    }
}

/// Some flattening of the clusters does not hold the triangles of the
/// geometry.
pub open spec fn loses_triangles(
    vertices: Seq<VertexLayout>,
    indices: Seq<u32>,
    clusters: (Seq<Meshlet>, Seq<u32>, Seq<u8>),
) -> bool {
    exists|mesh: PrimitiveMeshData| #[trigger]
        is_flattening(vertices, clusters.0, clusters.1, clusters.2, &mesh) && !holds_same_triangles(
            vertices,
            indices,
            mesh.vertices@,
            mesh.whole_mesh_indices@,
        )
}

/// Makes a clustered primitive of the clusters that the clusterizer returned
/// for `geometry`: checks and flattens them, and checks that they hold the
/// triangles of the geometry, each once. The collision proxy of the result is
/// empty.
///
/// Fails with `MalformedClusters` exactly when some cluster is not usable or
/// when the clusters fit but do not hold the triangles of `geometry`, and
/// with `ClustersTooLarge` exactly when all clusters are usable but their
/// totals do not fit.
pub fn cluster_geometry(geometry: &Geometry, clusters: &ClusterSet, material_index: usize) -> (r: Result<
    PrimitiveMeshData,
    MeshError,
>)
    requires
        geometry.wf(),
    ensures
        match r {
            Ok(mesh) => {
                &&& clusters_are_valid(
                    clusters.meshlets@,
                    clusters.vertex_refs@,
                    clusters.triangles@,
                    geometry.vertices@.len() as int,
                )
                &&& clusters_fit(clusters.meshlets@)
                &&& clusters_cover(clusters.meshlets@, geometry.indices@.len() as int)
                &&& is_flattening(
                    geometry.vertices@,
                    clusters.meshlets@,
                    clusters.vertex_refs@,
                    clusters.triangles@,
                    &mesh,
                )
                &&& holds_same_triangles(
                    geometry.vertices@,
                    geometry.indices@,
                    mesh.vertices@,
                    mesh.whole_mesh_indices@,
                )
                &&& mesh.simplified_indices@.len() == 0
                &&& mesh.material_index == material_index
                &&& mesh.wf()
            },
            Err(MeshError::MalformedClusters) => !clusters_are_valid(
                clusters.meshlets@,
                clusters.vertex_refs@,
                clusters.triangles@,
                geometry.vertices@.len() as int,
            ) || (clusters_fit(clusters.meshlets@) && (!clusters_cover(
                clusters.meshlets@,
                geometry.indices@.len() as int,
            ) || loses_triangles(geometry.vertices@, geometry.indices@, clusters@))),
            Err(MeshError::ClustersTooLarge) => clusters_are_valid(
                clusters.meshlets@,
                clusters.vertex_refs@,
                clusters.triangles@,
                geometry.vertices@.len() as int,
            ) && !clusters_fit(clusters.meshlets@),
            Err(_) => false,
        },
{
    match flatten_clusters(&geometry.vertices, clusters, material_index) {
        Ok(mesh) => {
            if mesh.whole_mesh_indices.len() != geometry.indices.len() {
                return Err(MeshError::MalformedClusters);
            }
            proof {
                lemma_whole_mesh_in_range(&mesh);
            }
            if !check_same_triangles(
                &geometry.vertices,
                &geometry.indices,
                &mesh.vertices,
                &mesh.whole_mesh_indices,
            ) {
                proof {
                    assert(is_flattening(
                        geometry.vertices@,
                        clusters@.0,
                        clusters@.1,
                        clusters@.2,
                        &mesh,
                    ));
                }
                return Err(MeshError::MalformedClusters);
            }
            Ok(mesh)
        },
        Err(e) => Err(e),
    }
}

/// A flattening of usable clusters is a well-formed clustered primitive.
pub proof fn lemma_flattening_is_wf(
    vertices: Seq<VertexLayout>,
    source: Seq<Meshlet>,
    vertex_refs: Seq<u32>,
    triangles: Seq<u8>,
    mesh: &PrimitiveMeshData,
)
    requires
        clusters_are_valid(source, vertex_refs, triangles, vertices.len() as int),
        clusters_fit(source),
        is_flattening(vertices, source, vertex_refs, triangles, mesh),
        mesh.proxy_fits(),
    ensures
        mesh.wf(),
{
    let m = mesh.meshlets@;
    assert forall|k: int| 0 <= k < m.len() implies {
        &&& (#[trigger] m[k]).vertex_offset == vertex_total(m, k)
        &&& m[k].triangle_offset == corner_total(m, k)
        &&& 1 <= m[k].vertex_count <= MAX_MESHLET_VERTICES
        &&& 1 <= m[k].triangle_count <= MAX_MESHLET_TRIANGLES
    } by {
        assert(cluster_is_valid(source[k], vertex_refs, triangles, vertices.len() as int));
        assert(triangles[source[k].triangle_offset as int] < source[k].vertex_count);
        lemma_totals_by_counts(m, source, k);
        lemma_totals_monotonic(source, k, source.len() as int);
    }
    lemma_totals_by_counts(m, source, m.len() as int);
    assert forall|k: int, c: int|
        #![trigger m[k], mesh.meshlet_indices@[c]]
        0 <= k < m.len() && owns_corner(m[k], c) implies {
        &&& mesh.meshlet_indices@[c] < m[k].vertex_count
        &&& mesh.whole_mesh_indices@[c] == mesh.meshlet_indices@[c] + m[k].vertex_offset
    } by {
        assert(cluster_is_valid(source[k], vertex_refs, triangles, vertices.len() as int));
        let j = source[k].triangle_offset + (c - m[k].triangle_offset);
        assert(triangles[j] < source[k].vertex_count);
    }
}

/// Reordering the triangles of an index list keeps every index in range.
pub proof fn lemma_reordering_in_range(
    given: Seq<u32>,
    moved: Seq<u32>,
    order: Seq<int>,
    vertex_count: int,
)
    requires
        given.len() % 3 == 0,
        indices_in_range(given, vertex_count),
        is_triangle_reordering(given, moved, order),
    ensures
        indices_in_range(moved, vertex_count),
{
    assert forall|i: int| 0 <= i < moved.len() implies (#[trigger] moved[i]) < vertex_count by {
        let t = i / 3;
        let s = order[t];
        assert(0 <= s < order.len());
        if i % 3 == 0 {
            assert(moved[i] == given[3 * s]);
        } else if i % 3 == 1 {
            assert(moved[i] == given[3 * s + 1]);
        } else {
            assert(moved[i] == given[3 * s + 2]);
        }
    }
}

} // verus!
