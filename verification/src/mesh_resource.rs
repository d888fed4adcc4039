//! The mesh extractor as a build step: one scene mesh in, its clustered
//! primitives out.

use std::sync::Arc;
use vstd::prelude::*;
use crate::compiler::AsyncCompiler;
use crate::resources::Resource;
use crate::scene::Scene;
use crate::meshlet::{Meshlet, VertexLayout, MAX_MESHLET_TRIANGLES, MAX_MESHLET_VERTICES};
use crate::mesh_optimizer::{
    build_meshlets, clusters_of, indices_in_range, is_simplification, simplified_of,
    simplify_sloppy, NO_VERTEX, VERTEX_STRIDE,
};
use crate::mesh::{
    check_finite_positions, cluster_geometry, clusters_are_valid, clusters_cover, clusters_fit,
    draws_same_triangles, encode_vertices, flip_winding, flipped_winding, gather_vertices,
    gathered_vertices, has_finite_positions, implicit_index_seq, implicit_indices,
    is_flattening, is_optimized, lemma_finite_positions, lemma_flattening_keeps_finite,
    lemma_no_vertex_made, lemma_vertex_buffer_bytes_len, lemma_whole_mesh_in_range,
    loses_triangles, optimize_geometry, vertex_buffer_bytes, MeshData, MeshError, MeshSource,
    PrimitiveMeshData, PrimitiveSource, CONE_WEIGHT, MAX_SIMPLIFIED_INDICES,
    SIMPLIFY_TARGET_ERROR,
};
use crate::triangles::{holds_same_triangles, lemma_draws_same_composes};

verus! {

impl PrimitiveSource {
    /// The primitive has every attribute stream and a material.
    pub open spec fn is_complete(&self) -> bool {
        &&& self.positions is Some
        &&& self.normals is Some
        &&& self.uvs is Some
        &&& self.material_index is Some
    }

    /// The vertices of the primitive in the runtime's coordinate system.
    pub open spec fn vertices(&self) -> Seq<VertexLayout> {
        gathered_vertices(self.positions->0@, self.normals->0@, self.uvs->0@)
    }

    /// The number of indices the primitive is drawn with: the length of its
    /// index buffer or, without one, the number of its positions.
    pub open spec fn index_count(&self) -> nat {
        match self.indices {
            Some(indices) => indices@.len(),
            None => self.positions->0@.len(),
        }
    }

    /// The indices the primitive is drawn with, given that they fit 32 bits.
    pub open spec fn drawn_indices(&self) -> Seq<u32> {
        match self.indices {
            Some(indices) => indices@,
            None => implicit_index_seq(self.positions->0@.len()),
        }
    }

    /// The primitive has more vertices than a 32-bit index can name.
    pub open spec fn has_too_many_vertices(&self) -> bool {
        ||| self.vertices().len() >= NO_VERTEX
        ||| (self.indices is None && self.positions->0@.len() > u32::MAX)
    }

    /// The primitive can be extracted: it is complete and its indices make
    /// whole triangles.
    pub open spec fn is_extractable(&self) -> bool {
        &&& self.is_complete()
        &&& self.index_count() % 3 == 0
    }
}

pub fn check_indices(indices: &Vec<u32>, vertex_count: usize) -> (b: bool)
    ensures
        b == indices_in_range(indices@, vertex_count as int),
{
    let mut i: usize = 0;
    while i < indices.len()
        invariant
            i <= indices@.len(),
            forall|j: int| 0 <= j < i ==> (#[trigger] indices@[j]) < vertex_count,
        decreases indices@.len() - i,
    {
        if indices[i] as usize >= vertex_count {
            return false;
        }
        i = i + 1;
    }
    true
}

/// An index list can serve as the collision proxy of `vertex_count` vertices.
pub open spec fn is_proxy(indices: Seq<u32>, vertex_count: int) -> bool {
    &&& indices.len() <= MAX_SIMPLIFIED_INDICES
    &&& indices.len() % 3 == 0
    &&& indices_in_range(indices, vertex_count)
}

pub fn check_proxy(indices: &Vec<u32>, vertex_count: usize) -> (b: bool)
    ensures
        b == is_proxy(indices@, vertex_count as int),
{
    indices.len() <= MAX_SIMPLIFIED_INDICES && indices.len() % 3 == 0 && check_indices(
        indices,
        vertex_count,
    )
}

fn copy_indices(indices: &Vec<u32>) -> (r: Vec<u32>)
    ensures
        r@ == indices@,
{
    let mut r: Vec<u32> = Vec::new();
    let mut i: usize = 0;
    while i < indices.len()
        invariant
            i <= indices@.len(),
            r@ == indices@.take(i as int),
        decreases indices@.len() - i,
    {
        r.push(indices[i]);
        assert(indices@.take(i + 1) =~= indices@.take(i as int).push(indices@[i as int]));
        i = i + 1;
    }
    assert(indices@.take(indices@.len() as int) =~= indices@);
    r
}

/// A clustered primitive without any geometry.
pub fn empty_primitive(material_index: usize) -> (mesh: PrimitiveMeshData)
    ensures
        mesh.wf(),
        mesh.meshlets@.len() == 0,
        mesh.vertices@.len() == 0,
        mesh.meshlet_indices@.len() == 0,
        mesh.whole_mesh_indices@.len() == 0,
        mesh.simplified_indices@.len() == 0,
        mesh.material_index == material_index,
{
    PrimitiveMeshData {
        meshlets: Vec::new(),
        vertices: Vec::new(),
        meshlet_indices: Vec::new(),
        whole_mesh_indices: Vec::new(),
        simplified_indices: Vec::new(),
        material_index,
    }
}

/// The clustered primitive with `simplified` as its collision proxy.
///
/// Fails, with `MalformedSimplification`, exactly when the list cannot serve
/// as a proxy: it has more than 256 indices, is no list of triangles, or
/// names a vertex that does not exist.
pub fn with_proxy(mesh: PrimitiveMeshData, simplified: Vec<u32>) -> (r: Result<
    PrimitiveMeshData,
    MeshError,
>)
    requires
        mesh.wf(),
    ensures
        match r {
            Ok(done) => {
                &&& is_proxy(simplified@, mesh.vertices@.len() as int)
                &&& done.simplified_indices == simplified
                &&& done.meshlets == mesh.meshlets
                &&& done.vertices == mesh.vertices
                &&& done.meshlet_indices == mesh.meshlet_indices
                &&& done.whole_mesh_indices == mesh.whole_mesh_indices
                &&& done.material_index == mesh.material_index
                &&& done.wf()
            },
            Err(e) => e == MeshError::MalformedSimplification && !is_proxy(
                simplified@,
                mesh.vertices@.len() as int,
            ),
        },
{
    if !check_proxy(&simplified, mesh.vertices.len()) {
        return Err(MeshError::MalformedSimplification);
    }
    let mut mesh = mesh;
    mesh.simplified_indices = simplified;
    Ok(mesh)
}

/// The number of indices that the simplifier is asked for: 256, or as many as
/// the whole-mesh list has if it has fewer.
pub open spec fn proxy_target(index_count: nat) -> usize {
    if index_count < MAX_SIMPLIFIED_INDICES {
        index_count as usize
    } else {
        MAX_SIMPLIFIED_INDICES
    }
}

/// The collision proxy of a primitive: what the simplifier makes of its
/// whole-mesh list.
pub open spec fn proxy_of(vertices: Seq<VertexLayout>, whole_mesh_indices: Seq<u32>) -> Seq<u32> {
    simplified_of(
        whole_mesh_indices,
        vertex_buffer_bytes(vertices),
        VERTEX_STRIDE,
        0,
        proxy_target(whole_mesh_indices.len()),
        SIMPLIFY_TARGET_ERROR,
    )
}

/// Simplifies the whole-mesh triangle list of a clustered primitive to at
/// most 256 indices and stores the result as its collision proxy.
///
/// Fails, with `NonFinitePosition`, exactly when a position of the primitive
/// is no finite number: the simplifier is not asked then. Else the proxy
/// that the simplifier makes replaces the one that the primitive had; it is
/// a list of whole triangles over the vertices of the primitive, of at most
/// 256 indices and no longer than the whole-mesh list. Nothing else of the
/// primitive changes.
pub fn attach_proxy(mesh: PrimitiveMeshData) -> (r: Result<PrimitiveMeshData, MeshError>)
    requires
        mesh.wf(),
    ensures
        match r {
            Ok(done) => {
                &&& has_finite_positions(mesh.vertices@)
                &&& done.simplified_indices@ == proxy_of(mesh.vertices@, mesh.whole_mesh_indices@)
                &&& is_simplification(
                    mesh.whole_mesh_indices@,
                    mesh.vertices@.len() as int,
                    done.simplified_indices@,
                )
                &&& done.simplified_indices@.len() <= MAX_SIMPLIFIED_INDICES
                &&& done.meshlets == mesh.meshlets
                &&& done.vertices == mesh.vertices
                &&& done.meshlet_indices == mesh.meshlet_indices
                &&& done.whole_mesh_indices == mesh.whole_mesh_indices
                &&& done.material_index == mesh.material_index
                &&& done.wf()
            },
            Err(e) => e == MeshError::NonFinitePosition && !has_finite_positions(mesh.vertices@),
        },
{
    if !check_finite_positions(&mesh.vertices) {
        return Err(MeshError::NonFinitePosition);
    }
    let bytes = encode_vertices(&mesh.vertices);
    proof {
        lemma_whole_mesh_in_range(&mesh);
        lemma_vertex_buffer_bytes_len(mesh.vertices@);
        lemma_finite_positions(mesh.vertices@);
    }
    let target: usize = if mesh.whole_mesh_indices.len() < MAX_SIMPLIFIED_INDICES {
        mesh.whole_mesh_indices.len()
    } else {
        MAX_SIMPLIFIED_INDICES
    };
    let simplified = simplify_sloppy(
        &mesh.whole_mesh_indices,
        &bytes,
        VERTEX_STRIDE,
        0,
        target,
        SIMPLIFY_TARGET_ERROR,
    );
    with_proxy(mesh, simplified)
}

/// The clusters that the clusterizer makes of an optimized geometry.
pub open spec fn geometry_clusters(vertices: Seq<VertexLayout>, indices: Seq<u32>) -> (
    Seq<Meshlet>,
    Seq<u32>,
    Seq<u8>,
) {
    clusters_of(
        indices,
        vertex_buffer_bytes(vertices),
        VERTEX_STRIDE,
        0,
        MAX_MESHLET_VERTICES,
        MAX_MESHLET_TRIANGLES,
        CONE_WEIGHT,
    )
}

/// `r` is what the extraction makes of a primitive once its geometry is
/// optimized to `(vertices, indices)`. The clusters of that geometry decide:
/// there is a clustered primitive exactly when every cluster is usable, the
/// totals fit and the clusters hold the triangles of the geometry, each once.
/// It is then the flattening of the clusters, with the material of the
/// primitive and a collision proxy that is a simplification of its whole-mesh
/// list.
pub open spec fn is_outcome_for(
    source: &PrimitiveSource,
    vertices: Seq<VertexLayout>,
    indices: Seq<u32>,
    r: Result<PrimitiveMeshData, MeshError>,
) -> bool {
    let c = geometry_clusters(vertices, indices);
    let usable = clusters_are_valid(c.0, c.1, c.2, vertices.len() as int);
    let fit = clusters_fit(c.0);
    let cover = clusters_cover(c.0, indices.len() as int);
    match r {
        Ok(mesh) => {
            &&& usable && fit && cover
            &&& is_flattening(vertices, c.0, c.1, c.2, &mesh)
            &&& holds_same_triangles(vertices, indices, mesh.vertices@, mesh.whole_mesh_indices@)
            &&& is_extraction(source, &mesh)
        },
        Err(MeshError::MalformedClusters) => !usable || (fit && (!cover || loses_triangles(
            vertices,
            indices,
            c,
        ))),
        Err(MeshError::ClustersTooLarge) => usable && !fit,
        Err(_) => false,
    }
}

/// `r` is the extraction of the primitive `source`.
///
/// A primitive with too many vertices is refused, then one with an index that
/// names no vertex. A primitive without indices becomes a clustered primitive
/// without geometry. Any other primitive is refused if one of its positions
/// is no finite number. Else its vertices are mirrored and the winding of
/// its triangles is inverted; that geometry is optimized; and the clusters
/// of the optimized geometry decide what becomes of it.
pub open spec fn is_extraction_outcome(
    source: &PrimitiveSource,
    r: Result<PrimitiveMeshData, MeshError>,
) -> bool {
    if source.has_too_many_vertices() {
        r == Err::<PrimitiveMeshData, MeshError>(MeshError::TooManyVertices)
    } else if !indices_in_range(source.drawn_indices(), source.vertices().len() as int) {
        r == Err::<PrimitiveMeshData, MeshError>(MeshError::IndexOutOfRange)
    } else if source.index_count() == 0 {
        r matches Ok(mesh) && is_extraction(source, &mesh) && mesh.meshlets@.len() == 0
            && mesh.vertices@.len() == 0 && mesh.simplified_indices@.len() == 0
    } else if !has_finite_positions(source.vertices()) {
        r == Err::<PrimitiveMeshData, MeshError>(MeshError::NonFinitePosition)
    } else {
        exists|vertices: Seq<VertexLayout>, indices: Seq<u32>|
            #[trigger] is_optimized(
                source.vertices(),
                flipped_winding(source.drawn_indices()),
                vertices,
                indices,
            ) && is_outcome_for(source, vertices, indices, r)
    }
}

/// Extracts one primitive: gathers and mirrors its vertices, inverts the
/// winding of its triangles, removes duplicate vertices, orders the geometry
/// for the vertex cache, clusters it into meshlets of at most 128 vertices and
/// 128 triangles, flattens the clusters and attaches the collision proxy.
///
/// The primitive is rejected when it has too many vertices or when one of its
/// indices names no vertex. A primitive without indices always succeeds. Any
/// other primitive is rejected when one of its positions is no finite
/// number; else the clusters that the clusterizer makes of its optimized
/// geometry decide. The simplifier fails no primitive.
pub fn extract_primitive(source: &PrimitiveSource) -> (r: Result<PrimitiveMeshData, MeshError>)
    requires
        source.is_extractable(),
    ensures
        is_extraction_outcome(source, r),
        r matches Ok(mesh) ==> is_extraction(source, &mesh),
        is_refused(source) <==> (r == Err::<PrimitiveMeshData, MeshError>(
            MeshError::TooManyVertices,
        ) || r == Err::<PrimitiveMeshData, MeshError>(MeshError::IndexOutOfRange) || r == Err::<
            PrimitiveMeshData,
            MeshError,
        >(MeshError::NonFinitePosition)),
{
    let material_index: usize = match source.material_index {
        Some(index) => index,
        None => 0,
    };
    let vertices = match (&source.positions, &source.normals, &source.uvs) {
        (Some(positions), Some(normals), Some(uvs)) => gather_vertices(positions, normals, uvs),
        _ => Vec::new(),
    };
    if vertices.len() >= NO_VERTEX as usize {
        return Err(MeshError::TooManyVertices);
    }
    let mut indices = match &source.indices {
        Some(indices) => copy_indices(indices),
        None => {
            let count: usize = match &source.positions {
                Some(positions) => positions.len(),
                None => 0,
            };
            if count > u32::MAX as usize {
                return Err(MeshError::TooManyVertices);
            }
            implicit_indices(count as u32)
        },
    };
    let ghost drawn = indices@;
    flip_winding(&mut indices);
    if !check_indices(&indices, vertices.len()) {
        proof {
            if indices_in_range(drawn, vertices@.len() as int) {
                lemma_flip_keeps_range(drawn, vertices@.len() as int);
            }
        }
        return Err(MeshError::IndexOutOfRange);
    }
    proof {
        crate::mesh::lemma_flip_winding_involution(drawn);
        lemma_flip_keeps_range(indices@, vertices@.len() as int);
    }
    if indices.len() == 0 {
        let mesh = empty_primitive(material_index);
        proof {
            assert(draws_same_triangles(
                vertices@,
                indices@,
                mesh.vertices@,
                mesh.whole_mesh_indices@,
                Seq::<int>::empty(),
            ));
        }
        return Ok(mesh);
    }
    if !check_finite_positions(&vertices) {
        return Err(MeshError::NonFinitePosition);
    }
    let ghost flipped = indices@;
    let ghost gathered = vertices@;
    let geometry = optimize_geometry(vertices, indices);
    let ghost first = choose|order: Seq<int>|
        draws_same_triangles(gathered, flipped, geometry.vertices@, geometry.indices@, order);
    proof {
        assert(geometry.indices@.len() == flipped.len());
    }
    let bytes = encode_vertices(&geometry.vertices);
    proof {
        lemma_no_vertex_made(gathered, geometry.vertices@);
        lemma_finite_positions(geometry.vertices@);
    }
    let clusters = build_meshlets(
        &geometry.indices,
        &bytes,
        VERTEX_STRIDE,
        0,
        MAX_MESHLET_VERTICES,
        MAX_MESHLET_TRIANGLES,
        CONE_WEIGHT,
    );
    let r = match cluster_geometry(&geometry, &clusters, material_index) {
        Ok(mesh) => {
            proof {
                let second = choose|order: Seq<int>|
                    draws_same_triangles(
                        geometry.vertices@,
                        geometry.indices@,
                        mesh.vertices@,
                        mesh.whole_mesh_indices@,
                        order,
                    );
                lemma_draws_same_composes(
                    gathered,
                    flipped,
                    geometry.vertices@,
                    geometry.indices@,
                    first,
                    mesh.vertices@,
                    mesh.whole_mesh_indices@,
                    second,
                );
                let order = Seq::new(second.len(), |t: int| first[second[t]]);
                assert(gathered == source.vertices());
                assert(flipped == flipped_winding(source.drawn_indices()));
                assert(draws_same_triangles(
                    source.vertices(),
                    flipped_winding(source.drawn_indices()),
                    mesh.vertices@,
                    mesh.whole_mesh_indices@,
                    order,
                ));
                assert(keeps_triangles(source, &mesh));
                lemma_flattening_keeps_finite(
                    geometry.vertices@,
                    clusters@.0,
                    clusters@.1,
                    clusters@.2,
                    &mesh,
                );
            }
            attach_proxy(mesh)
        },
        Err(e) => Err(e),
    };
    proof {
        assert(is_optimized(gathered, flipped, geometry.vertices@, geometry.indices@));
        assert(is_outcome_for(source, geometry.vertices@, geometry.indices@, r));
    }
    r
}

/// Inverting the winding moves indices but neither adds nor removes one.
pub proof fn lemma_flip_keeps_range(indices: Seq<u32>, vertex_count: int)
    requires
        indices_in_range(indices, vertex_count),
    ensures
        indices_in_range(flipped_winding(indices), vertex_count),
{
    assert forall|i: int| 0 <= i < indices.len() implies (#[trigger] flipped_winding(indices)[i])
        < vertex_count by {
        if i < 3 * (indices.len() / 3) {
            if i % 3 == 1 {
                assert(indices[i + 1] < vertex_count);
            } else if i % 3 == 2 {
                assert(indices[i - 1] < vertex_count);
            }
        }
    }
}

impl MeshSource {
    /// Every primitive of the mesh can be extracted.
    pub open spec fn is_extractable(&self) -> bool {
        forall|i: int|
            0 <= i < self.primitives@.len() ==> (#[trigger] self.primitives@[i]).is_extractable()
    }
}

/// `mesh` is an extraction of the primitive `source`: it is well formed, has
/// the material of the primitive, draws the triangles of the primitive, and
/// has the collision proxy that the simplifier makes of its whole-mesh list,
/// which is a simplification of that list. A primitive without indices has
/// an empty proxy.
pub open spec fn is_extraction(source: &PrimitiveSource, mesh: &PrimitiveMeshData) -> bool {
    &&& mesh.wf()
    &&& mesh.material_index == source.material_index->0
    &&& mesh.whole_mesh_indices@.len() == source.index_count()
    &&& is_simplification(
        mesh.whole_mesh_indices@,
        mesh.vertices@.len() as int,
        mesh.simplified_indices@,
    )
    &&& (source.index_count() > 0 ==> mesh.simplified_indices@ == proxy_of(
        mesh.vertices@,
        mesh.whole_mesh_indices@,
    ))
    &&& keeps_triangles(source, mesh)
}

/// `mesh` draws the triangles of the primitive `source`, mirrored and with
/// their winding inverted, each once: triangle `t` of its whole-mesh list
/// has, corner by corner, the vertices of triangle `order[t]` of the
/// primitive.
pub open spec fn keeps_triangles(source: &PrimitiveSource, mesh: &PrimitiveMeshData) -> bool {
    exists|order: Seq<int>|
        draws_same_triangles(
            source.vertices(),
            flipped_winding(source.drawn_indices()),
            mesh.vertices@,
            mesh.whole_mesh_indices@,
            order,
        )
}

/// The primitive is refused for what it is: it has too many vertices, an
/// index of it names no vertex, or it has triangles and a position that is no
/// finite number.
pub open spec fn is_refused(source: &PrimitiveSource) -> bool {
    ||| source.has_too_many_vertices()
    ||| !indices_in_range(source.drawn_indices(), source.vertices().len() as int)
    ||| (source.index_count() > 0 && !has_finite_positions(source.vertices()))
}

/// The first `k` primitives of the mesh are extracted as `done`, and the
/// extraction of the next fails with `e`.
pub open spec fn fails_at(source: &MeshSource, k: int, done: Seq<PrimitiveMeshData>, e: MeshError) -> bool {
    &&& 0 <= k < source.primitives@.len()
    &&& done.len() == k
    &&& forall|i: int|
        0 <= i < k ==> is_extraction_outcome(
            &source.primitives@[i],
            Ok::<PrimitiveMeshData, MeshError>(#[trigger] done[i]),
        )
    &&& is_extraction_outcome(&source.primitives@[k], Err::<PrimitiveMeshData, MeshError>(e))
}

/// `r` is the extraction of the mesh `source`: the extractions of its
/// primitives, in order, if every primitive is extracted, and else the error
/// of the first primitive whose extraction fails.
pub open spec fn is_mesh_extraction(source: &MeshSource, r: Result<MeshData, MeshError>) -> bool {
    match r {
        Ok(data) => {
            &&& data.primitive_meshes@.len() == source.primitives@.len()
            &&& forall|i: int|
                0 <= i < source.primitives@.len() ==> is_extraction_outcome(
                    &source.primitives@[i],
                    Ok::<PrimitiveMeshData, MeshError>(#[trigger] data.primitive_meshes@[i]),
                )
        },
        Err(e) => exists|k: int, done: Seq<PrimitiveMeshData>| #[trigger] fails_at(source, k, done, e),
    }
}

/// Extracts every primitive of a mesh, in order. The first primitive that
/// fails ends the extraction with its error.
pub fn extract_mesh(source: &MeshSource) -> (r: Result<MeshData, MeshError>)
    requires
        source.is_extractable(),
    ensures
        is_mesh_extraction(source, r),
        r matches Ok(data) ==> {
            &&& data.primitive_meshes@.len() == source.primitives@.len()
            &&& forall|i: int|
                0 <= i < data.primitive_meshes@.len() ==> is_extraction(
                    &source.primitives@[i],
                    &#[trigger] data.primitive_meshes@[i],
                )
        },
{
    let mut primitive_meshes: Vec<PrimitiveMeshData> = Vec::new();
    let mut i: usize = 0;
    while i < source.primitives.len()
        invariant
            i <= source.primitives@.len(),
            source.is_extractable(),
            primitive_meshes@.len() == i,
            forall|j: int|
                0 <= j < i ==> is_extraction(
                    &source.primitives@[j],
                    &#[trigger] primitive_meshes@[j],
                ),
            forall|j: int|
                0 <= j < i ==> is_extraction_outcome(
                    &source.primitives@[j],
                    Ok::<PrimitiveMeshData, MeshError>(#[trigger] primitive_meshes@[j]),
                ),
        decreases source.primitives@.len() - i,
    {
        match extract_primitive(&source.primitives[i]) {
            Ok(mesh) => primitive_meshes.push(mesh),
            Err(e) => {
                proof {
                    assert(fails_at(source, i as int, primitive_meshes@, e));
                }
                return Err(e);
            },
        }
        i = i + 1;
    }
    Ok(MeshData { primitive_meshes })
}

/// The build step that extracts one mesh of a scene.
pub struct MeshResource {
    pub scene: Arc<Scene>,
    pub mesh_index: usize,
}

impl MeshResource {
    pub fn new(scene: Arc<Scene>, mesh_index: usize) -> (resource: MeshResource)
        ensures
            resource.scene == scene,
            resource.mesh_index == mesh_index,
    {
        MeshResource { scene, mesh_index }
    }

    /// The mesh of the scene that the step extracts.
    pub open spec fn source(&self) -> MeshSource {
        self.scene.gltf.meshes@[self.mesh_index as int]
    }
}

impl Resource for MeshResource {
    type ReturnValue = Result<MeshData, MeshError>;

    /// The mesh exists and every primitive of it can be extracted.
    open spec fn is_ready(&self) -> bool {
        &&& self.mesh_index < self.scene.gltf.meshes@.len()
        &&& self.source().is_extractable()
    }

    /// The value is the extraction of the mesh: one clustered primitive for
    /// each primitive of the mesh, in order, or the error of the first
    /// primitive whose extraction fails.
    open spec fn yields(&self, value: &Result<MeshData, MeshError>) -> bool {
        &&& is_mesh_extraction(&self.source(), *value)
        &&& value matches Ok(data) ==> {
            &&& data.primitive_meshes@.len() == self.source().primitives@.len()
            &&& forall|i: int|
                0 <= i < data.primitive_meshes@.len() ==> is_extraction(
                    &self.source().primitives@[i],
                    &#[trigger] data.primitive_meshes@[i],
                )
        }
    }

    fn compile(&self, compiler: Arc<AsyncCompiler>) -> (value: Result<MeshData, MeshError>) {
        extract_mesh(&self.scene.gltf.meshes[self.mesh_index])
    }
}

} // verus!
