//! The builder of the geometry database: lays the clustered primitives of all
//! meshes of a level out in shared buffers and tables.

use std::sync::Arc;
use vstd::prelude::*;
use crate::compiler::AsyncCompiler;
use crate::geometry_database::{
    mappings_sorted, GeometryDatabase, Material, MeshMapping, NO_TEXTURE,
};
use crate::mesh::{
    encode_vertices, lemma_totals_monotonic, lemma_vertex_buffer_bytes_len, vertex_buffer_bytes,
};
use crate::meshlet::Meshlet;
use crate::resources::Resource;
use crate::scene::{all_below, strictly_ascending, MaterialSource, Scene};
use crate::wire::push_bytes;

verus! {

/// Why a geometry database could not be built.
#[derive(Clone, Copy, Debug, PartialEq, Eq, Structural)]
pub enum GeometryError {
    /// The level has more vertices, triangle corners, meshlets or primitives
    /// than 32-bit offsets can address, or an index that does not fit 32 bits.
    TooLarge,
}

/// The primitives of all meshes, mesh by mesh.
pub open spec fn all_primitives(meshes: Seq<crate::mesh::MeshData>) -> Seq<
    crate::mesh::PrimitiveMeshData,
>
    decreases meshes.len(),
{
    if meshes.len() == 0 {
        Seq::empty()
    } else {
        all_primitives(meshes.drop_last()) + meshes.last().primitive_meshes@
    }
}

/// The number of vertices of the primitives.
pub open spec fn vertex_sum(primitives: Seq<crate::mesh::PrimitiveMeshData>) -> int
    decreases primitives.len(),
{
    if primitives.len() == 0 {
        0
    } else {
        vertex_sum(primitives.drop_last()) + primitives.last().vertices@.len()
    }
}

/// The number of triangle corners of the primitives.
pub open spec fn corner_sum(primitives: Seq<crate::mesh::PrimitiveMeshData>) -> int
    decreases primitives.len(),
{
    if primitives.len() == 0 {
        0
    } else {
        corner_sum(primitives.drop_last()) + primitives.last().meshlet_indices@.len()
    }
}

/// The number of meshlets of the primitives.
pub open spec fn meshlet_sum(primitives: Seq<crate::mesh::PrimitiveMeshData>) -> int
    decreases primitives.len(),
{
    if primitives.len() == 0 {
        0
    } else {
        meshlet_sum(primitives.drop_last()) + primitives.last().meshlets@.len()
    }
}

/// A meshlet of a primitive as it stands in the database, where the vertices
/// of the primitive start at `vertex_base` and its triangle corners at
/// `corner_base`.
pub open spec fn shifted_meshlet(m: Meshlet, vertex_base: int, corner_base: int) -> Meshlet {
    Meshlet {
        vertex_offset: (m.vertex_offset + vertex_base) as u32,
        vertex_count: m.vertex_count,
        triangle_offset: (m.triangle_offset + corner_base) as u32,
        triangle_count: m.triangle_count,
    }
}

/// The meshlets of a primitive as they stand in the database.
pub open spec fn shifted_meshlets(meshlets: Seq<Meshlet>, vertex_base: int, corner_base: int) -> Seq<
    Meshlet,
> {
    Seq::new(meshlets.len(), |i: int| shifted_meshlet(meshlets[i], vertex_base, corner_base))
}

/// The meshlet table of the database.
pub open spec fn database_meshlets(primitives: Seq<crate::mesh::PrimitiveMeshData>) -> Seq<Meshlet>
    decreases primitives.len(),
{
    if primitives.len() == 0 {
        Seq::empty()
    } else {
        database_meshlets(primitives.drop_last()) + shifted_meshlets(
            primitives.last().meshlets@,
            vertex_sum(primitives.drop_last()),
            corner_sum(primitives.drop_last()),
        )
    }
}

/// The vertex buffer of the database.
pub open spec fn database_vertices(primitives: Seq<crate::mesh::PrimitiveMeshData>) -> Seq<u8>
    decreases primitives.len(),
{
    if primitives.len() == 0 {
        Seq::empty()
    } else {
        database_vertices(primitives.drop_last()) + vertex_buffer_bytes(
            primitives.last().vertices@,
        )
    }
}

/// The buffer of cluster-local triangle corners of the database.
pub open spec fn database_corners(primitives: Seq<crate::mesh::PrimitiveMeshData>) -> Seq<u8>
    decreases primitives.len(),
{
    if primitives.len() == 0 {
        Seq::empty()
    } else {
        database_corners(primitives.drop_last()) + primitives.last().meshlet_indices@
    }
}

/// The primitive table of the database.
pub open spec fn database_primitives(primitives: Seq<crate::mesh::PrimitiveMeshData>) -> Seq<
    crate::geometry_database::PrimitiveMeshData,
>
    decreases primitives.len(),
{
    if primitives.len() == 0 {
        Seq::empty()
    } else {
        database_primitives(primitives.drop_last()).push(
            crate::geometry_database::PrimitiveMeshData {
                meshlets_offset: meshlet_sum(primitives.drop_last()) as u32,
                meshlets_count: primitives.last().meshlets@.len() as u32,
                material_index: primitives.last().material_index as u32,
            },
        )
    }
}

/// The mapping table of the database: for each mesh its index in the scene
/// and its range of the primitive table.
pub open spec fn database_mappings(keys: Seq<usize>, meshes: Seq<crate::mesh::MeshData>) -> Seq<
    MeshMapping,
>
    decreases meshes.len(),
{
    if meshes.len() == 0 {
        Seq::empty()
    } else {
        database_mappings(keys, meshes.drop_last()).push(
            MeshMapping {
                index: keys[meshes.len() - 1] as u32,
                mesh_data: crate::geometry_database::MeshData {
                    primitive_mesh_offset: all_primitives(meshes.drop_last()).len() as u32,
                    primitive_mesh_count: meshes.last().primitive_meshes@.len() as u32,
                },
            },
        )
    }
}

/// The material of the database for a material of the scene: the factors as
/// they are, and the images of its textures, `NO_TEXTURE` where it has none.
pub open spec fn database_material(source: MaterialSource) -> Material {
    Material {
        albedo_red: source.base_color_factor[0],
        albedo_green: source.base_color_factor[1],
        albedo_blue: source.base_color_factor[2],
        albedo_alpha: source.base_color_factor[3],
        metallic_factor: source.metallic_factor,
        roughness_factor: source.roughness_factor,
        albedo_color_texture_index: match source.base_color_texture {
            Some(image) => image as u32,
            None => NO_TEXTURE,
        },
        metallic_roughness_texture_index: match source.metallic_roughness_texture {
            Some(image) => image as u32,
            None => NO_TEXTURE,
        },
    }
}

/// The index of an image fits the 32 bits of a texture index and is not the
/// one that stands for no texture.
pub open spec fn texture_fits(texture: Option<usize>) -> bool {
    texture matches Some(image) ==> image < NO_TEXTURE
}

/// The materials of a scene fit the database.
pub open spec fn materials_fit(sources: Seq<MaterialSource>, used: Seq<usize>) -> bool {
    forall|i: int|
        0 <= i < used.len() ==> texture_fits(sources[(#[trigger] used[i]) as int].base_color_texture)
            && texture_fits(sources[used[i] as int].metallic_roughness_texture)
}

/// The material table of the database: one material for each material in
/// use, in order.
pub open spec fn database_materials(sources: Seq<MaterialSource>, used: Seq<usize>) -> Seq<Material> {
    Seq::new(used.len(), |i: int| database_material(sources[used[i] as int]))
}

/// The clustered primitives fit the database: all that is counted, and every
/// index that is stored, fits 32 bits.
pub open spec fn primitives_fit(primitives: Seq<crate::mesh::PrimitiveMeshData>) -> bool {
    &&& vertex_sum(primitives) <= u32::MAX
    &&& corner_sum(primitives) <= u32::MAX
    &&& meshlet_sum(primitives) <= u32::MAX
    &&& primitives.len() <= u32::MAX
    &&& forall|i: int|
        0 <= i < primitives.len() ==> (#[trigger] primitives[i]).material_index <= u32::MAX
}

/// The indices of the meshes fit 32 bits.
pub open spec fn keys_fit(keys: Seq<usize>) -> bool {
    forall|i: int| 0 <= i < keys.len() ==> (#[trigger] keys[i]) <= u32::MAX
}

/// Every meshlet of the primitive starts inside the two buffers of the
/// primitive. The buffers may hold more than the meshlets name; what lies
/// between the meshlets or behind them is laid out with them.
pub open spec fn starts_inside(primitive: &crate::mesh::PrimitiveMeshData) -> bool {
    forall|k: int|
        0 <= k < primitive.meshlets@.len() ==> (#[trigger] primitive.meshlets@[k]).vertex_offset
            <= primitive.vertices@.len() && primitive.meshlets@[k].triangle_offset
            <= primitive.meshlet_indices@.len()
}

/// Every meshlet of every primitive of every mesh starts inside the buffers
/// of its primitive.
pub open spec fn meshes_laid_out(meshes: Seq<crate::mesh::MeshData>) -> bool {
    forall|m: int, p: int|
        #![trigger meshes[m].primitive_meshes@[p]]
        0 <= m < meshes.len() && 0 <= p < meshes[m].primitive_meshes@.len() ==> starts_inside(
            &meshes[m].primitive_meshes@[p],
        )
}

/// The meshlets of a well-formed primitive start inside its buffers.
pub proof fn lemma_wf_starts_inside(primitive: &crate::mesh::PrimitiveMeshData)
    requires
        primitive.wf(),
    ensures
        starts_inside(primitive),
{
    assert forall|k: int| 0 <= k < primitive.meshlets@.len() implies (
    #[trigger] primitive.meshlets@[k]).vertex_offset <= primitive.vertices@.len()
        && primitive.meshlets@[k].triangle_offset <= primitive.meshlet_indices@.len() by {
        lemma_totals_monotonic(primitive.meshlets@, k, primitive.meshlets@.len() as int);
    }
}

/// Tells whether every meshlet of a primitive starts inside its buffers.
pub fn check_starts_inside(primitive: &crate::mesh::PrimitiveMeshData) -> (b: bool)
    ensures
        b == starts_inside(primitive),
{
    let vertices: usize = primitive.vertices.len();
    let corners: usize = primitive.meshlet_indices.len();
    let mut k: usize = 0;
    while k < primitive.meshlets.len()
        invariant
            k <= primitive.meshlets@.len(),
            vertices == primitive.vertices@.len(),
            corners == primitive.meshlet_indices@.len(),
            forall|j: int|
                0 <= j < k ==> (#[trigger] primitive.meshlets@[j]).vertex_offset <= vertices
                    && primitive.meshlets@[j].triangle_offset <= corners,
        decreases primitive.meshlets@.len() - k,
    {
        let m = &primitive.meshlets[k];
        if m.vertex_offset as usize > vertices || m.triangle_offset as usize > corners {
            return false;
        }
        k = k + 1;
    }
    true
}

/// Tells whether every meshlet of every primitive of the meshes starts
/// inside the buffers of its primitive.
pub fn check_laid_out(meshes: &Vec<crate::mesh::MeshData>) -> (b: bool)
    ensures
        b == meshes_laid_out(meshes@),
{
    let mut m: usize = 0;
    while m < meshes.len()
        invariant
            m <= meshes@.len(),
            forall|i: int, p: int|
                #![trigger meshes@[i].primitive_meshes@[p]]
                0 <= i < m && 0 <= p < meshes@[i].primitive_meshes@.len() ==> starts_inside(
                    &meshes@[i].primitive_meshes@[p],
                ),
        decreases meshes@.len() - m,
    {
        let mesh = &meshes[m];
        let mut p: usize = 0;
        while p < mesh.primitive_meshes.len()
            invariant
                p <= mesh.primitive_meshes@.len(),
                m < meshes@.len(),
                mesh == meshes@[m as int],
                forall|q: int| 0 <= q < p ==> starts_inside(&#[trigger] mesh.primitive_meshes@[q]),
            decreases mesh.primitive_meshes@.len() - p,
        {
            if !check_starts_inside(&mesh.primitive_meshes[p]) {
                assert(!starts_inside(&meshes@[m as int].primitive_meshes@[p as int]));
                return false;
            }
            p = p + 1;
        }
        m = m + 1;
    }
    true
}

/// The primitives of the first `m` meshes are the first of all primitives,
/// and those of mesh `m` follow them.
pub proof fn lemma_all_primitives_index(meshes: Seq<crate::mesh::MeshData>, m: int, p: int)
    requires
        0 <= m < meshes.len(),
        0 <= p <= meshes[m].primitive_meshes@.len(),
    ensures
        all_primitives(meshes.take(m)).len() + meshes[m].primitive_meshes@.len() == all_primitives(
            meshes.take(m + 1),
        ).len(),
        all_primitives(meshes.take(m + 1)).len() <= all_primitives(meshes).len(),
        all_primitives(meshes).take(all_primitives(meshes.take(m)).len() as int) == all_primitives(
            meshes.take(m),
        ),
        p < meshes[m].primitive_meshes@.len() ==> all_primitives(meshes)[all_primitives(
            meshes.take(m),
        ).len() + p] == meshes[m].primitive_meshes@[p],
    decreases meshes.len(),
{
    let shorter = meshes.drop_last();
    let last = meshes.last().primitive_meshes@;
    let all = all_primitives(meshes);
    if m == meshes.len() - 1 {
        assert(meshes.take(m) =~= shorter);
        assert(meshes.take(m + 1) =~= meshes);
        assert(all.take(all_primitives(shorter).len() as int) =~= all_primitives(shorter));
    } else {
        lemma_all_primitives_index(shorter, m, p);
        assert(shorter.take(m) =~= meshes.take(m));
        assert(shorter.take(m + 1) =~= meshes.take(m + 1));
        let head = all_primitives(meshes.take(m)).len() as int;
        assert(all.take(head) =~= all_primitives(shorter).take(head));
    }
}

/// What fits as a whole fits in part: the sums of the first primitives are
/// not above the sums of all, and never negative.
pub proof fn lemma_sums_monotonic(primitives: Seq<crate::mesh::PrimitiveMeshData>, k: int)
    requires
        0 <= k <= primitives.len(),
    ensures
        0 <= vertex_sum(primitives.take(k)) <= vertex_sum(primitives),
        0 <= corner_sum(primitives.take(k)) <= corner_sum(primitives),
        0 <= meshlet_sum(primitives.take(k)) <= meshlet_sum(primitives),
    decreases primitives.len() - k,
{
    if k < primitives.len() {
        lemma_sums_monotonic(primitives, k + 1);
        assert(primitives.take(k + 1).drop_last() =~= primitives.take(k));
        lemma_sums_nonnegative(primitives.take(k));
    } else {
        assert(primitives.take(k) =~= primitives);
        lemma_sums_nonnegative(primitives);
    }
}

/// The sums are never negative.
pub proof fn lemma_sums_nonnegative(primitives: Seq<crate::mesh::PrimitiveMeshData>)
    ensures
        0 <= vertex_sum(primitives),
        0 <= corner_sum(primitives),
        0 <= meshlet_sum(primitives),
    decreases primitives.len(),
{
    if primitives.len() > 0 {
        lemma_sums_nonnegative(primitives.drop_last());
    }
}

/// The tables of `n` primitives have as many entries as was counted.
pub proof fn lemma_database_lens(primitives: Seq<crate::mesh::PrimitiveMeshData>)
    ensures
        database_meshlets(primitives).len() == meshlet_sum(primitives),
        database_vertices(primitives).len() == 32 * vertex_sum(primitives),
        database_corners(primitives).len() == corner_sum(primitives),
        database_primitives(primitives).len() == primitives.len(),
    decreases primitives.len(),
{
    if primitives.len() > 0 {
        lemma_database_lens(primitives.drop_last());
        lemma_vertex_buffer_bytes_len(primitives.last().vertices@);
    }
}

/// The mapping table has one entry for each mesh, with the index of the mesh
/// as its key.
pub proof fn lemma_database_mappings(keys: Seq<usize>, meshes: Seq<crate::mesh::MeshData>)
    requires
        meshes.len() <= keys.len(),
    ensures
        database_mappings(keys, meshes).len() == meshes.len(),
        forall|i: int|
            0 <= i < meshes.len() ==> (#[trigger] database_mappings(keys, meshes)[i]).index
                == keys[i] as u32,
    decreases meshes.len(),
{
    if meshes.len() > 0 {
        lemma_database_mappings(keys, meshes.drop_last());
    }
}

/// Sortedness: the mapping table of a database that was built from distinct,
/// ascending mesh indices is strictly ascending by key.
pub proof fn lemma_mappings_sorted(keys: Seq<usize>, meshes: Seq<crate::mesh::MeshData>)
    requires
        meshes.len() == keys.len(),
        strictly_ascending(keys),
        keys_fit(keys),
    ensures
        mappings_sorted(database_mappings(keys, meshes)),
{
    lemma_database_mappings(keys, meshes);
    let mappings = database_mappings(keys, meshes);
    assert forall|i: int, j: int| 0 <= i < j < mappings.len() implies mappings[i].index
        < mappings[j].index by {
        assert(keys[i] <= u32::MAX);
        assert(keys[j] <= u32::MAX);
    }
}

fn texture_index(texture: Option<usize>) -> (r: u32)
    requires
        texture_fits(texture),
    ensures
        r == match texture {
            Some(image) => image as u32,
            None => NO_TEXTURE,
        },
{
    match texture {
        Some(image) => image as u32,
        None => NO_TEXTURE,
    }
}

/// The material of the database for a material of the scene.
pub fn material_record(source: &MaterialSource) -> (r: Material)
    requires
        texture_fits(source.base_color_texture),
        texture_fits(source.metallic_roughness_texture),
    ensures
        r == database_material(*source),
{
    Material::new(
        &source.base_color_factor,
        source.metallic_factor,
        source.roughness_factor,
        texture_index(source.base_color_texture),
        texture_index(source.metallic_roughness_texture),
    )
}

fn check_texture(texture: Option<usize>) -> (b: bool)
    ensures
        b == texture_fits(texture),
{
    match texture {
        Some(image) => image < NO_TEXTURE as usize,
        None => true,
    }
}

/// The material table for the materials in use, or nothing if the image of a
/// texture does not fit.
pub fn build_materials(sources: &Vec<MaterialSource>, used: &Vec<usize>) -> (r: Option<Vec<Material>>)
    requires
        all_below(used@, sources@.len() as int),
    ensures
        r is Some <==> materials_fit(sources@, used@),
        r matches Some(materials) ==> materials@ == database_materials(sources@, used@),
{
    let mut materials: Vec<Material> = Vec::new();
    let mut i: usize = 0;
    while i < used.len()
        invariant
            i <= used@.len(),
            all_below(used@, sources@.len() as int),
            materials@.len() == i,
            forall|j: int|
                0 <= j < i ==> texture_fits(
                    sources@[(#[trigger] used@[j]) as int].base_color_texture,
                ) && texture_fits(sources@[used@[j] as int].metallic_roughness_texture),
            forall|j: int|
                0 <= j < i ==> materials@[j] == database_material(sources@[used@[j] as int]),
        decreases used@.len() - i,
    {
        let source = &sources[used[i]];
        if !check_texture(source.base_color_texture) || !check_texture(
            source.metallic_roughness_texture,
        ) {
            return None;
        }
        materials.push(material_record(source));
        i = i + 1;
    }
    assert(materials@ =~= database_materials(sources@, used@));
    Some(materials)
}

fn append_shifted(out: &mut Vec<Meshlet>, meshlets: &Vec<Meshlet>, vertex_base: u32, corner_base: u32)
    requires
        forall|i: int|
            0 <= i < meshlets@.len() ==> (#[trigger] meshlets@[i]).vertex_offset + vertex_base
                <= u32::MAX && meshlets@[i].triangle_offset + corner_base <= u32::MAX,
    ensures
        final(out)@ == old(out)@ + shifted_meshlets(
            meshlets@,
            vertex_base as int,
            corner_base as int,
        ),
{
    let ghost target = shifted_meshlets(meshlets@, vertex_base as int, corner_base as int);
    let mut i: usize = 0;
    while i < meshlets.len()
        invariant
            i <= meshlets@.len(),
            target == shifted_meshlets(meshlets@, vertex_base as int, corner_base as int),
            forall|j: int|
                0 <= j < meshlets@.len() ==> (#[trigger] meshlets@[j]).vertex_offset + vertex_base
                    <= u32::MAX && meshlets@[j].triangle_offset + corner_base <= u32::MAX,
            out@ == old(out)@ + target.take(i as int),
        decreases meshlets@.len() - i,
    {
        let m = &meshlets[i];
        out.push(
            Meshlet::new(
                vertex_base + m.vertex_offset,
                m.vertex_count,
                corner_base + m.triangle_offset,
                m.triangle_count,
            ),
        );
        assert(target.take(i + 1) =~= target.take(i as int).push(target[i as int]));
        i = i + 1;
    }
    assert(target.take(meshlets@.len() as int) =~= target);
}

/// Builds the geometry database of a level from the clustered primitives of
/// its meshes. `keys` are the indices of the meshes in the scene, ascending;
/// `meshes` are the extracted meshes in the same order; `materials` is the
/// material table.
///
/// The primitives are laid out in the order of the meshes: the vertices and
/// the triangle corners of each primitive are appended to the two buffers,
/// its meshlets are appended to the meshlet table with their offsets moved to
/// where the primitive starts, and the primitive table records where the
/// meshlets of the primitive are. The mapping table gets one entry for each
/// mesh and is strictly ascending by key.
///
/// Fails exactly when something does not fit 32 bits.
pub fn build_geometry_database(
    keys: &Vec<usize>,
    meshes: &Vec<crate::mesh::MeshData>,
    materials: Vec<Material>,
) -> (r: Result<GeometryDatabase, GeometryError>)
    requires
        keys@.len() == meshes@.len(),
        strictly_ascending(keys@),
        meshes_laid_out(meshes@),
    ensures
        r is Ok <==> primitives_fit(all_primitives(meshes@)) && keys_fit(keys@),
        r matches Ok(database) ==> {
            &&& database.vertex_buffer@ == database_vertices(all_primitives(meshes@))
            &&& database.meshlet_indices_buffer@ == database_corners(all_primitives(meshes@))
            &&& database.meshlet_buffer@ == database_meshlets(all_primitives(meshes@))
            &&& database.primitive_meshes@ == database_primitives(all_primitives(meshes@))
            &&& database.materials@ == materials@
            &&& database.mappings@ == database_mappings(keys@, meshes@)
            &&& database.wf()
        },
{
    let ghost all = all_primitives(meshes@);
    let mut database = GeometryDatabase {
        vertex_buffer: Vec::new(),
        meshlet_indices_buffer: Vec::new(),
        meshlet_buffer: Vec::new(),
        primitive_meshes: Vec::new(),
        materials,
        mappings: Vec::new(),
    };
    let mut vertex_count: usize = 0;
    let mut m: usize = 0;
    while m < meshes.len()
        invariant
            m <= meshes@.len(),
            keys@.len() == meshes@.len(),
            meshes_laid_out(meshes@),
            all == all_primitives(meshes@),
            database.materials@ == materials@,
            primitives_fit(all_primitives(meshes@.take(m as int))),
            forall|i: int| 0 <= i < m ==> (#[trigger] keys@[i]) <= u32::MAX,
            vertex_count == vertex_sum(all_primitives(meshes@.take(m as int))),
            database.vertex_buffer@ == database_vertices(all_primitives(meshes@.take(m as int))),
            database.meshlet_indices_buffer@ == database_corners(
                all_primitives(meshes@.take(m as int)),
            ),
            database.meshlet_buffer@ == database_meshlets(all_primitives(meshes@.take(m as int))),
            database.primitive_meshes@ == database_primitives(
                all_primitives(meshes@.take(m as int)),
            ),
            database.mappings@ == database_mappings(keys@, meshes@.take(m as int)),
        decreases meshes@.len() - m,
    {
        let mesh = &meshes[m];
        let ghost before = all_primitives(meshes@.take(m as int));
        proof {
            lemma_all_primitives_index(meshes@, m as int, 0);
            lemma_database_lens(before);
            assert(meshes@.take(m + 1).drop_last() =~= meshes@.take(m as int));
        }
        let primitive_count: usize = mesh.primitive_meshes.len();
        if keys[m] > u32::MAX as usize || primitive_count > u32::MAX as usize {
            proof {
                if primitives_fit(all) {
                    lemma_all_primitives_index(meshes@, m as int, 0);
                }
            }
            return Err(GeometryError::TooLarge);
        }
        database.mappings.push(
            MeshMapping::new(
                keys[m] as u32,
                &crate::geometry_database::MeshData::new(
                    database.primitive_meshes.len() as u32,
                    primitive_count as u32,
                ),
            ),
        );
        let mut p: usize = 0;
        while p < mesh.primitive_meshes.len()
            invariant
                p <= mesh.primitive_meshes@.len(),
                m < meshes@.len(),
                mesh == meshes@[m as int],
                meshes_laid_out(meshes@),
                all == all_primitives(meshes@),
                before == all_primitives(meshes@.take(m as int)),
                database.materials@ == materials@,
                database.mappings@ == database_mappings(keys@, meshes@.take(m + 1)),
                primitives_fit(before + mesh.primitive_meshes@.take(p as int)),
                vertex_count == vertex_sum(before + mesh.primitive_meshes@.take(p as int)),
                database.vertex_buffer@ == database_vertices(
                    before + mesh.primitive_meshes@.take(p as int),
                ),
                database.meshlet_indices_buffer@ == database_corners(
                    before + mesh.primitive_meshes@.take(p as int),
                ),
                database.meshlet_buffer@ == database_meshlets(
                    before + mesh.primitive_meshes@.take(p as int),
                ),
                database.primitive_meshes@ == database_primitives(
                    before + mesh.primitive_meshes@.take(p as int),
                ),
            decreases mesh.primitive_meshes@.len() - p,
        {
            let primitive = &mesh.primitive_meshes[p];
            let ghost done = before + mesh.primitive_meshes@.take(p as int);
            let ghost next = before + mesh.primitive_meshes@.take(p + 1);
            proof {
                assert(next.drop_last() =~= done);
                assert(next.last() == *primitive);
                assert(starts_inside(primitive));
                lemma_database_lens(done);
                lemma_sums_nonnegative(done);
                lemma_all_primitives_index(meshes@, m as int, p as int);
                assert(all.take(next.len() as int) =~= next) by {
                    let head = before.len() as int;
                    assert(all.take(head) == before);
                    assert forall|i: int| 0 <= i < next.len() implies all[i] == next[i] by {
                        if i < head {
                            assert(all.take(head)[i] == all[i]);
                        } else {
                            lemma_all_primitives_index(meshes@, m as int, i - head);
                        }
                    }
                }
            }
            let meshlet_base: usize = database.meshlet_buffer.len();
            let corner_base: usize = database.meshlet_indices_buffer.len();
            let vertices: usize = primitive.vertices.len();
            let fits = vertices <= u32::MAX as usize - vertex_count && primitive.meshlet_indices.len()
                <= u32::MAX as usize - corner_base && primitive.meshlets.len() <= u32::MAX as usize
                - meshlet_base && primitive.material_index <= u32::MAX as usize
                && database.primitive_meshes.len() < u32::MAX as usize;
            if !fits {
                proof {
                    if primitives_fit(all) {
                        lemma_sums_monotonic(all, next.len() as int);
                        assert(all[next.len() - 1] == *primitive);
                    }
                }
                return Err(GeometryError::TooLarge);
            }
            proof {
                assert forall|i: int| 0 <= i < primitive.meshlets@.len() implies (
                #[trigger] primitive.meshlets@[i]).vertex_offset + vertex_count <= u32::MAX
                    && primitive.meshlets@[i].triangle_offset + corner_base <= u32::MAX by {}
            }
            append_shifted(
                &mut database.meshlet_buffer,
                &primitive.meshlets,
                vertex_count as u32,
                corner_base as u32,
            );
            let mut bytes = encode_vertices(&primitive.vertices);
            database.vertex_buffer.append(&mut bytes);
            push_bytes(&mut database.meshlet_indices_buffer, primitive.meshlet_indices.as_slice());
            database.primitive_meshes.push(
                crate::geometry_database::PrimitiveMeshData::new(
                    meshlet_base as u32,
                    primitive.meshlets.len() as u32,
                    primitive.material_index as u32,
                ),
            );
            vertex_count = vertex_count + vertices;
            proof {
                assert forall|i: int| 0 <= i < next.len() implies (#[trigger] next[i]).material_index
                    <= u32::MAX by {
                    if i < done.len() {
                        assert(next[i] == done[i]);
                    }
                }
            }
            p = p + 1;
        }
        proof {
            assert(mesh.primitive_meshes@.take(mesh.primitive_meshes@.len() as int)
                =~= mesh.primitive_meshes@);
            assert(all_primitives(meshes@.take(m + 1)) == before + mesh.primitive_meshes@) by {
                assert(meshes@.take(m + 1).drop_last() =~= meshes@.take(m as int));
                assert(meshes@.take(m + 1).last() == meshes@[m as int]);
            }
        }
        m = m + 1;
    }
    proof {
        assert(meshes@.take(meshes@.len() as int) =~= meshes@);
        lemma_mappings_sorted(keys@, meshes@);
    }
    Ok(database)
}

/// The build step that compiles the geometry database of a level.
pub struct GeometryDatabaseResource {
    pub scene: Arc<Scene>,
    pub meshes: Arc<Vec<crate::mesh::MeshData>>,
}

impl GeometryDatabaseResource {
    pub fn new(scene: Arc<Scene>, meshes: Arc<Vec<crate::mesh::MeshData>>) -> (r: GeometryDatabaseResource)
        ensures
            r.scene == scene,
            r.meshes == meshes,
    {
        GeometryDatabaseResource { scene, meshes }
    }

    /// The level fits a geometry database.
    pub open spec fn fits(&self) -> bool {
        &&& materials_fit(self.scene.gltf.materials@, self.scene.materials@)
        &&& primitives_fit(all_primitives(self.meshes@))
        &&& keys_fit(self.scene.meshes@)
    }
}

impl Resource for GeometryDatabaseResource {
    type ReturnValue = Result<GeometryDatabase, GeometryError>;

    /// The scene is sound and there is one well-formed extracted mesh for
    /// each mesh of the scene.
    open spec fn is_ready(&self) -> bool {
        &&& self.scene.wf()
        &&& self.meshes@.len() == self.scene.meshes@.len()
        &&& meshes_laid_out(self.meshes@)
    }

    /// There is a database exactly when the level fits; its tables hold the
    /// primitives of the meshes in scene order, its materials those in use,
    /// and its mapping table is strictly ascending by key.
    open spec fn yields(&self, value: &Result<GeometryDatabase, GeometryError>) -> bool {
        &&& value is Ok <==> self.fits()
        &&& value matches Ok(database) ==> {
            &&& database.vertex_buffer@ == database_vertices(all_primitives(self.meshes@))
            &&& database.meshlet_indices_buffer@ == database_corners(
                all_primitives(self.meshes@),
            )
            &&& database.meshlet_buffer@ == database_meshlets(all_primitives(self.meshes@))
            &&& database.primitive_meshes@ == database_primitives(all_primitives(self.meshes@))
            &&& database.materials@ == database_materials(
                self.scene.gltf.materials@,
                self.scene.materials@,
            )
            &&& database.mappings@ == database_mappings(self.scene.meshes@, self.meshes@)
            &&& database.wf()
        }
    }

    fn compile(&self, compiler: Arc<AsyncCompiler>) -> (value: Result<
        GeometryDatabase,
        GeometryError,
    >) {
        let materials = match build_materials(&self.scene.gltf.materials, &self.scene.materials) {
            Some(materials) => materials,
            None => {
                return Err(GeometryError::TooLarge);
            },
        };
        build_geometry_database(&self.scene.meshes, &self.meshes, materials)
    }
}

} // verus!
