use thunder::mesh::{
    check_cluster, check_clusters, check_finite_positions, cluster_geometry, deduplicate,
    encode_vertices, flatten_clusters, flip_winding, gather_vertices, implicit_indices,
    mirror_vertex, optimize_geometry, Geometry, MeshError, MeshSource, PrimitiveMeshData,
    PrimitiveSource,
};
use thunder::mesh_optimizer::ClusterSet;
use thunder::mesh_resource::{
    attach_proxy, check_indices, check_proxy, empty_primitive, extract_mesh, extract_primitive,
    with_proxy,
};
use thunder::meshlet::{negate, Meshlet, VertexLayout};
use thunder::triangles::{check_same_triangles, same_vertex};

fn bits3(v: [f32; 3]) -> [u32; 3] {
    [v[0].to_bits(), v[1].to_bits(), v[2].to_bits()]
}

fn bits2(v: [f32; 2]) -> [u32; 2] {
    [v[0].to_bits(), v[1].to_bits()]
}

/// A unit cube: eight corners, twelve triangles.
fn cube() -> PrimitiveSource {
    let corners: Vec<[f32; 3]> = vec![
        [0.0, 0.0, 0.0],
        [1.0, 0.0, 0.0],
        [1.0, 1.0, 0.0],
        [0.0, 1.0, 0.0],
        [0.0, 0.0, 1.0],
        [1.0, 0.0, 1.0],
        [1.0, 1.0, 1.0],
        [0.0, 1.0, 1.0],
    ];
    let indices: Vec<u32> = vec![
        0, 1, 2, 0, 2, 3, 4, 6, 5, 4, 7, 6, 0, 4, 5, 0, 5, 1, 1, 5, 6, 1, 6, 2, 2, 6, 7, 2, 7, 3,
        3, 7, 4, 3, 4, 0,
    ];
    PrimitiveSource {
        positions: Some(corners.iter().map(|c| bits3(*c)).collect()),
        normals: Some(corners.iter().map(|_| bits3([0.0, 0.0, 1.0])).collect()),
        uvs: Some(corners.iter().map(|c| bits2([c[0], c[1]])).collect()),
        indices: Some(indices),
        material_index: Some(3),
    }
}

/// A grid of `n` by `n` cells in the plane, two triangles per cell.
fn grid(n: u32) -> PrimitiveSource {
    let mut positions = Vec::new();
    let mut normals = Vec::new();
    let mut uvs = Vec::new();
    for y in 0..=n {
        for x in 0..=n {
            positions.push(bits3([x as f32, y as f32, ((x * 7 + y * 3) % 5) as f32 * 0.1]));
            normals.push(bits3([0.0, 0.0, 1.0]));
            uvs.push(bits2([x as f32 / n as f32, y as f32 / n as f32]));
        }
    }
    let mut indices = Vec::new();
    for y in 0..n {
        for x in 0..n {
            let a = y * (n + 1) + x;
            let b = a + 1;
            let c = a + n + 1;
            let d = c + 1;
            indices.extend_from_slice(&[a, b, d, a, d, c]);
        }
    }
    PrimitiveSource {
        positions: Some(positions),
        normals: Some(normals),
        uvs: Some(uvs),
        indices: Some(indices),
        material_index: Some(0),
    }
}

/// Checks at run time what the library proves of every clustered primitive.
fn assert_partition(mesh: &PrimitiveMeshData) {
    let mut next_vertex = 0u32;
    let mut next_corner = 0u32;
    for m in &mesh.meshlets {
        assert!(m.vertex_count <= 128);
        assert!(m.triangle_count <= 128);
        assert_eq!(m.vertex_offset, next_vertex);
        assert_eq!(m.triangle_offset, next_corner);
        for c in m.triangle_offset..m.triangle_offset + 3 * m.triangle_count {
            let local = mesh.meshlet_indices[c as usize] as u32;
            assert!(local < m.vertex_count);
            assert_eq!(mesh.whole_mesh_indices[c as usize], local + m.vertex_offset);
        }
        next_vertex += m.vertex_count;
        next_corner += 3 * m.triangle_count;
    }
    assert_eq!(next_vertex as usize, mesh.vertices.len());
    assert_eq!(next_corner as usize, mesh.meshlet_indices.len());
    assert_eq!(mesh.whole_mesh_indices.len(), mesh.meshlet_indices.len());
    assert!(mesh.simplified_indices.len() <= 256);
    assert_eq!(mesh.simplified_indices.len() % 3, 0);
    assert!(mesh.simplified_indices.iter().all(|i| (*i as usize) < mesh.vertices.len()));
}

/// The triangles of a geometry by the content of their corners, rotated so
/// that the smallest corner comes first, and sorted.
fn triangle_contents(vertices: &[VertexLayout], indices: &[u32]) -> Vec<[[u32; 8]; 3]> {
    let key = |v: &VertexLayout| {
        [
            v.position[0],
            v.position[1],
            v.position[2],
            v.normal[0],
            v.normal[1],
            v.normal[2],
            v.uv[0],
            v.uv[1],
        ]
    };
    let mut triangles: Vec<[[u32; 8]; 3]> = indices
        .chunks(3)
        .map(|t| {
            let k = [
                key(&vertices[t[0] as usize]),
                key(&vertices[t[1] as usize]),
                key(&vertices[t[2] as usize]),
            ];
            let first = (0..3).min_by_key(|i| k[*i]).unwrap();
            [k[first], k[(first + 1) % 3], k[(first + 2) % 3]]
        })
        .collect();
    triangles.sort();
    triangles
}

#[test]
fn negating_flips_the_sign_bit_only() {
    assert_eq!(negate(1.5f32.to_bits()), (-1.5f32).to_bits());
    assert_eq!(negate(0.0f32.to_bits()), (-0.0f32).to_bits());
    assert_eq!(negate((-2.0f32).to_bits()), 2.0f32.to_bits());
    assert_eq!(negate(negate(0x7FC0_0001)), 0x7FC0_0001);
}

#[test]
fn a_vertex_is_mirrored_along_the_first_axis() {
    let v = mirror_vertex(&bits3([1.0, 2.0, 3.0]), &bits3([0.5, 0.25, -1.0]), &bits2([0.1, 0.9]));
    assert_eq!(v.position, bits3([-1.0, 2.0, 3.0]));
    assert_eq!(v.normal, bits3([-0.5, 0.25, -1.0]));
    assert_eq!(v.uv, bits2([0.1, 0.9]));
}

#[test]
fn the_shortest_stream_decides_the_number_of_vertices() {
    let positions = vec![bits3([0.0; 3]); 5];
    let normals = vec![bits3([0.0; 3]); 3];
    let uvs = vec![bits2([0.0; 2]); 4];
    assert_eq!(gather_vertices(&positions, &normals, &uvs).len(), 3);
}

#[test]
fn implicit_indices_count_up_from_zero() {
    assert_eq!(implicit_indices(6), vec![0, 1, 2, 3, 4, 5]);
    assert_eq!(implicit_indices(0), Vec::<u32>::new());
}

#[test]
fn flipping_exchanges_the_second_and_third_corner() {
    let mut indices = vec![0, 1, 2, 3, 4, 5];
    flip_winding(&mut indices);
    assert_eq!(indices, vec![0, 2, 1, 3, 5, 4]);
    flip_winding(&mut indices);
    assert_eq!(indices, vec![0, 1, 2, 3, 4, 5]);
}

#[test]
fn flipping_leaves_an_incomplete_triangle_alone() {
    let mut indices = vec![0, 1, 2, 3, 4];
    flip_winding(&mut indices);
    assert_eq!(indices, vec![0, 2, 1, 3, 4]);
}

#[test]
fn a_vertex_is_encoded_in_thirty_two_little_endian_bytes() {
    let v = VertexLayout { position: [1, 2, 3], normal: [4, 5, 6], uv: [7, 0x0A0B0C0D] };
    let bytes = encode_vertices(&vec![v]);
    assert_eq!(bytes.len(), 32);
    assert_eq!(&bytes[0..4], &[1, 0, 0, 0]);
    assert_eq!(&bytes[12..16], &[4, 0, 0, 0]);
    assert_eq!(&bytes[28..32], &[0x0D, 0x0C, 0x0B, 0x0A]);
}

#[test]
fn index_checks_find_the_index_without_a_vertex() {
    assert!(check_indices(&vec![0, 1, 2], 3));
    assert!(!check_indices(&vec![0, 3, 2], 3));
    assert!(check_indices(&vec![], 0));
}

#[test]
fn a_proxy_has_at_most_256_indices_in_whole_triangles() {
    assert!(check_proxy(&vec![0; 255], 1));
    assert!(!check_proxy(&vec![0; 254], 1));
    assert!(!check_proxy(&vec![0; 258], 1));
    assert!(!check_proxy(&vec![0, 1, 2], 2));
}

#[test]
fn optimizing_a_cube_keeps_its_triangles() {
    let source = cube();
    let vertices = gather_vertices(
        source.positions.as_ref().unwrap(),
        source.normals.as_ref().unwrap(),
        source.uvs.as_ref().unwrap(),
    );
    let indices = source.indices.clone().unwrap();
    let before = triangle_contents(&vertices, &indices);
    let geometry = optimize_geometry(vertices, indices);
    assert_eq!(geometry.indices.len(), 36);
    assert_eq!(triangle_contents(&geometry.vertices, &geometry.indices), before);
}

#[test]
fn duplicate_vertices_collapse_to_one() {
    // Twelve corners, but only three different vertices.
    let positions: Vec<[u32; 3]> = (0..12).map(|i| bits3([(i % 3) as f32, 0.0, 0.0])).collect();
    let normals = vec![bits3([0.0, 1.0, 0.0]); 12];
    let uvs = vec![bits2([0.0, 0.0]); 12];
    let vertices = gather_vertices(&positions, &normals, &uvs);
    let geometry = optimize_geometry(vertices, (0..12).collect());
    let mut used: Vec<u32> = geometry.indices.clone();
    used.sort();
    used.dedup();
    assert_eq!(used, vec![0, 1, 2]);
}

#[test]
fn deduplicating_twice_changes_nothing() {
    let positions: Vec<[u32; 3]> = (0..30).map(|i| bits3([(i % 7) as f32, 1.0, 0.0])).collect();
    let normals = vec![bits3([0.0, 1.0, 0.0]); 30];
    let uvs = vec![bits2([0.0, 0.0]); 30];
    let vertices = gather_vertices(&positions, &normals, &uvs);
    let indices: Vec<u32> = (0..30).collect();
    let once = deduplicate(&vertices, &indices);
    assert_eq!(once.unique, 7);
    assert_eq!(once.remap, (0..30).map(|i| i % 7).collect::<Vec<u32>>());
    assert_eq!(once.indices, once.remap);
    assert_eq!(once.vertices.len(), 30);
    for i in 0..30 {
        assert!(same_vertex(&once.vertices[once.indices[i] as usize], &vertices[i]));
    }
    let twice = deduplicate(&once.vertices, &once.indices);
    assert_eq!(twice.unique, 7);
    assert_eq!(&twice.remap[..7], &[0, 1, 2, 3, 4, 5, 6]);
    assert!(twice.remap[7..].iter().all(|r| *r == u32::MAX));
    assert_eq!(twice.indices, once.indices);
    for v in 0..7 {
        assert!(same_vertex(&twice.vertices[v], &once.vertices[v]));
    }
}

#[test]
fn deduplication_numbers_vertices_in_order_of_first_use() {
    let a = mirror_vertex(&bits3([1.0, 0.0, 0.0]), &bits3([0.0, 1.0, 0.0]), &bits2([0.0, 0.0]));
    let b = mirror_vertex(&bits3([2.0, 0.0, 0.0]), &bits3([0.0, 1.0, 0.0]), &bits2([0.0, 0.0]));
    let c = mirror_vertex(&bits3([3.0, 0.0, 0.0]), &bits3([0.0, 1.0, 0.0]), &bits2([0.0, 0.0]));
    // Vertex 1 is never used; vertices 2 and 4 are equal.
    let vertices = vec![a, b, c, b, c];
    let indices = vec![4, 3, 0, 2, 0, 3];
    let d = deduplicate(&vertices, &indices);
    assert_eq!(d.unique, 3);
    assert_eq!(d.remap, vec![2, u32::MAX, 0, 1, 0]);
    assert_eq!(d.indices, vec![0, 1, 2, 0, 2, 1]);
    assert!(same_vertex(&d.vertices[0], &c));
    assert!(same_vertex(&d.vertices[1], &b));
    assert!(same_vertex(&d.vertices[2], &a));
}

#[test]
fn optimizing_twice_draws_the_same_triangles() {
    let positions: Vec<[u32; 3]> = (0..30).map(|i| bits3([(i % 7) as f32, 1.0, 0.0])).collect();
    let normals = vec![bits3([0.0, 1.0, 0.0]); 30];
    let uvs = vec![bits2([0.0, 0.0]); 30];
    let vertices = gather_vertices(&positions, &normals, &uvs);
    let once = optimize_geometry(vertices, (0..30).collect());
    let again = optimize_geometry(once.vertices.clone(), once.indices.clone());
    assert_eq!(
        triangle_contents(&again.vertices, &again.indices),
        triangle_contents(&once.vertices, &once.indices)
    );
    assert_eq!(once.indices.iter().max(), Some(&6));
    assert_eq!(again.indices.iter().max(), Some(&6));
}

#[test]
fn a_cube_becomes_one_meshlet_of_twelve_triangles() {
    let mesh = extract_primitive(&cube()).unwrap();
    assert_partition(&mesh);
    assert_eq!(mesh.material_index, 3);
    assert_eq!(mesh.whole_mesh_indices.len(), 36);
    let triangles: u32 = mesh.meshlets.iter().map(|m| m.triangle_count).sum();
    assert_eq!(triangles, 12);
    assert!(mesh.meshlets.len() >= 1);
}

#[test]
fn extraction_mirrors_and_inverts_but_keeps_every_triangle() {
    let source = cube();
    let mesh = extract_primitive(&source).unwrap();
    let vertices = gather_vertices(
        source.positions.as_ref().unwrap(),
        source.normals.as_ref().unwrap(),
        source.uvs.as_ref().unwrap(),
    );
    let mut flipped = source.indices.clone().unwrap();
    flip_winding(&mut flipped);
    assert_eq!(
        triangle_contents(&mesh.vertices, &mesh.whole_mesh_indices),
        triangle_contents(&vertices, &flipped)
    );
}

#[test]
fn a_large_grid_is_split_into_bounded_meshlets() {
    let source = grid(24);
    let mesh = extract_primitive(&source).unwrap();
    assert_partition(&mesh);
    assert_eq!(mesh.whole_mesh_indices.len(), 24 * 24 * 6);
    assert!(mesh.meshlets.len() >= 24 * 24 * 2 / 128);
    assert!(mesh.simplified_indices.len() <= 256);
}

#[test]
fn a_primitive_without_an_index_buffer_is_drawn_in_order() {
    let mut source = cube();
    source.indices = None;
    source.positions = Some((0..9).map(|i| bits3([i as f32, (i * i) as f32, 0.0])).collect());
    source.normals = Some(vec![bits3([0.0, 0.0, 1.0]); 9]);
    source.uvs = Some(vec![bits2([0.0, 0.0]); 9]);
    let mesh = extract_primitive(&source).unwrap();
    assert_partition(&mesh);
    assert_eq!(mesh.whole_mesh_indices.len(), 9);
}

#[test]
fn a_primitive_without_triangles_is_empty() {
    let mut source = cube();
    source.indices = Some(vec![]);
    let mesh = extract_primitive(&source).unwrap();
    assert!(mesh.meshlets.is_empty());
    assert!(mesh.vertices.is_empty());
    assert!(mesh.whole_mesh_indices.is_empty());
    assert_eq!(mesh.material_index, 3);
}

#[test]
fn an_index_without_a_vertex_is_refused() {
    let mut source = cube();
    source.indices = Some(vec![0, 1, 8]);
    assert!(matches!(extract_primitive(&source), Err(MeshError::IndexOutOfRange)));
}

#[test]
fn a_mesh_keeps_the_order_of_its_primitives() {
    let mut second = grid(4);
    second.material_index = Some(9);
    let mesh = extract_mesh(&MeshSource { primitives: vec![cube(), second] }).unwrap();
    assert_eq!(mesh.primitive_meshes.len(), 2);
    assert_eq!(mesh.primitive_meshes[0].material_index, 3);
    assert_eq!(mesh.primitive_meshes[1].material_index, 9);
    assert_eq!(mesh.primitive_meshes[1].whole_mesh_indices.len(), 4 * 4 * 6);
    for primitive in &mesh.primitive_meshes {
        assert_partition(primitive);
    }
}

#[test]
fn a_meshlet_hands_out_what_it_was_made_of() {
    let m = Meshlet::new(1, 2, 3, 4);
    assert_eq!(m.vertex_offset(), 1);
    assert_eq!(m.vertex_count(), 2);
    assert_eq!(m.triangle_offset(), 3);
    assert_eq!(m.triangle_count(), 4);
}

fn numbered(count: u32) -> Vec<VertexLayout> {
    (0..count).map(|i| VertexLayout { position: [i, 0, 0], normal: [0, 0, 0], uv: [0, 0] }).collect()
}

/// Two clusters over five vertices; the second starts after a gap in both buffers.
fn two_clusters() -> ClusterSet {
    ClusterSet {
        meshlets: vec![Meshlet::new(0, 3, 0, 1), Meshlet::new(4, 4, 4, 2)],
        vertex_refs: vec![4, 2, 0, 99, 1, 2, 3, 4],
        triangles: vec![2, 1, 0, 77, 0, 1, 2, 2, 1, 3],
    }
}

#[test]
fn the_triangles_are_reordered_for_the_vertex_cache() {
    let source = grid(24);
    let vertices = gather_vertices(
        source.positions.as_ref().unwrap(),
        source.normals.as_ref().unwrap(),
        source.uvs.as_ref().unwrap(),
    );
    let indices = source.indices.clone().unwrap();
    let position = |vertices: &[VertexLayout], index: u32| vertices[index as usize].position;
    let before: Vec<[u32; 3]> = indices.iter().map(|i| position(&vertices, *i)).collect();
    let geometry = optimize_geometry(vertices, indices);
    let after: Vec<[u32; 3]> =
        geometry.indices.iter().map(|i| position(&geometry.vertices, *i)).collect();
    assert_ne!(before, after);
}

#[test]
fn vertices_come_in_the_order_of_their_first_use() {
    let source = grid(8);
    let vertices = gather_vertices(
        source.positions.as_ref().unwrap(),
        source.normals.as_ref().unwrap(),
        source.uvs.as_ref().unwrap(),
    );
    let geometry = optimize_geometry(vertices, source.indices.clone().unwrap());
    let mut next = 0;
    for index in &geometry.indices {
        assert!(*index <= next);
        if *index == next {
            next += 1;
        }
    }
    assert_eq!(next, 81);
}

#[test]
fn clusters_are_flattened_into_ranges_of_their_own() {
    let mesh = flatten_clusters(&numbered(5), &two_clusters(), 7).unwrap();
    assert_eq!(mesh.meshlets, vec![Meshlet::new(0, 3, 0, 1), Meshlet::new(3, 4, 3, 2)]);
    let positions: Vec<u32> = mesh.vertices.iter().map(|v| v.position[0]).collect();
    assert_eq!(positions, vec![4, 2, 0, 1, 2, 3, 4]);
    assert_eq!(mesh.meshlet_indices, vec![2, 1, 0, 0, 1, 2, 2, 1, 3]);
    assert_eq!(mesh.whole_mesh_indices, vec![2, 1, 0, 3, 4, 5, 5, 4, 6]);
    assert!(mesh.simplified_indices.is_empty());
    assert_eq!(mesh.material_index, 7);
    assert_partition(&mesh);
}

#[test]
fn no_clusters_make_an_empty_primitive() {
    let none = ClusterSet { meshlets: vec![], vertex_refs: vec![], triangles: vec![] };
    let mesh = flatten_clusters(&numbered(5), &none, 0).unwrap();
    assert!(mesh.meshlets.is_empty() && mesh.vertices.is_empty());
    assert!(mesh.meshlet_indices.is_empty() && mesh.whole_mesh_indices.is_empty());
    let empty = empty_primitive(4);
    assert!(empty.meshlets.is_empty() && empty.vertices.is_empty());
    assert_eq!(empty.material_index, 4);
}

#[test]
fn a_cluster_that_reaches_outside_its_buffers_is_refused() {
    let vertices = numbered(5);
    let mut clusters = two_clusters();
    clusters.meshlets[1].vertex_count = 5;
    assert!(!check_clusters(&clusters, 5));
    assert!(matches!(flatten_clusters(&vertices, &clusters, 0), Err(MeshError::MalformedClusters)));
    let mut clusters = two_clusters();
    clusters.meshlets[1].triangle_offset = 5;
    assert!(matches!(flatten_clusters(&vertices, &clusters, 0), Err(MeshError::MalformedClusters)));
    let mut clusters = two_clusters();
    clusters.meshlets[0].vertex_offset = u32::MAX;
    assert!(matches!(flatten_clusters(&vertices, &clusters, 0), Err(MeshError::MalformedClusters)));
}

#[test]
fn a_cluster_that_names_what_does_not_exist_is_refused() {
    let vertices = numbered(5);
    let mut clusters = two_clusters();
    clusters.vertex_refs[5] = 5;
    assert!(matches!(flatten_clusters(&vertices, &clusters, 0), Err(MeshError::MalformedClusters)));
    let mut clusters = two_clusters();
    clusters.triangles[1] = 3;
    assert!(matches!(flatten_clusters(&vertices, &clusters, 0), Err(MeshError::MalformedClusters)));
    // What lies in the gaps between the clusters is of no concern.
    assert!(check_clusters(&two_clusters(), 5));
    assert!(!check_clusters(&two_clusters(), 4));
}

#[test]
fn a_cluster_beyond_the_meshlet_bounds_is_refused() {
    let refs: Vec<u32> = vec![0; 129];
    let triangles: Vec<u8> = vec![0; 3 * 129];
    assert!(check_cluster(&Meshlet::new(0, 128, 0, 128), &refs, &triangles, 1));
    assert!(!check_cluster(&Meshlet::new(0, 129, 0, 1), &refs, &triangles, 1));
    assert!(!check_cluster(&Meshlet::new(0, 1, 0, 129), &refs, &triangles, 1));
}

#[test]
fn the_proxy_of_a_primitive_names_its_vertices() {
    let mesh = extract_primitive(&grid(24)).unwrap();
    let bare = PrimitiveMeshData {
        meshlets: mesh.meshlets.clone(),
        vertices: mesh.vertices.clone(),
        meshlet_indices: mesh.meshlet_indices.clone(),
        whole_mesh_indices: mesh.whole_mesh_indices.clone(),
        simplified_indices: vec![],
        material_index: 1,
    };
    let done = attach_proxy(bare).unwrap();
    assert_eq!(done.simplified_indices, mesh.simplified_indices);
    assert!(!done.simplified_indices.is_empty());
    assert_eq!(done.whole_mesh_indices, mesh.whole_mesh_indices);
    assert_eq!(done.material_index, 1);
    assert_partition(&done);
}

#[test]
fn clusters_must_hold_the_triangles_of_the_geometry() {
    let geometry = |indices: Vec<u32>| Geometry { vertices: numbered(5), indices };
    // The triangles of the two clusters, in another order.
    let mesh = cluster_geometry(&geometry(vec![1, 2, 3, 0, 2, 4, 3, 2, 4]), &two_clusters(), 7).unwrap();
    assert_eq!(mesh.whole_mesh_indices, vec![2, 1, 0, 3, 4, 5, 5, 4, 6]);
    assert_eq!(mesh.material_index, 7);
    assert_partition(&mesh);
    // A triangle is missing, or there is one too many.
    assert!(matches!(
        cluster_geometry(&geometry(vec![1, 2, 3, 0, 2, 4, 3, 2, 4, 0, 1, 2]), &two_clusters(), 7),
        Err(MeshError::MalformedClusters)
    ));
    assert!(matches!(
        cluster_geometry(&geometry(vec![1, 2, 3, 0, 2, 4]), &two_clusters(), 7),
        Err(MeshError::MalformedClusters)
    ));
    // As many corners, but another triangle; one triangle twice; a triangle wound the other way.
    for indices in [
        vec![1, 2, 3, 0, 2, 4, 0, 1, 2],
        vec![1, 2, 3, 1, 2, 3, 3, 2, 4],
        vec![1, 3, 2, 0, 2, 4, 3, 2, 4],
    ] {
        assert!(matches!(
            cluster_geometry(&geometry(indices), &two_clusters(), 7),
            Err(MeshError::MalformedClusters)
        ));
    }
    let mut broken = two_clusters();
    broken.vertex_refs[0] = 5;
    assert!(matches!(
        cluster_geometry(&geometry(vec![1, 2, 3, 0, 2, 4, 3, 2, 4]), &broken, 7),
        Err(MeshError::MalformedClusters)
    ));
    // A cluster without a triangle is no cluster.
    let mut hollow = two_clusters();
    hollow.meshlets[0].triangle_count = 0;
    assert!(!check_clusters(&hollow, 5));
}

#[test]
fn the_same_triangles_are_told_whatever_their_order() {
    let a = numbered(4);
    let mut b = numbered(4);
    b.reverse();
    // Vertex i of `a` is vertex 3 - i of `b`.
    assert!(check_same_triangles(&a, &vec![0, 1, 2, 1, 2, 3], &b, &vec![2, 1, 0, 3, 2, 1]));
    assert!(check_same_triangles(&a, &vec![0, 1, 2, 0, 1, 2], &a, &vec![0, 1, 2, 0, 1, 2]));
    assert!(!check_same_triangles(&a, &vec![0, 1, 2, 1, 2, 3], &a, &vec![0, 1, 2, 0, 1, 2]));
    assert!(!check_same_triangles(&a, &vec![0, 1, 2], &a, &vec![0, 2, 1]));
    assert!(!check_same_triangles(&a, &vec![0, 1, 2], &a, &vec![]));
    assert!(check_same_triangles(&a, &vec![], &b, &vec![]));
    assert!(same_vertex(&a[1], &b[2]));
    assert!(!same_vertex(&a[1], &b[1]));
}

#[test]
fn a_list_that_is_no_proxy_is_refused() {
    let bare = || flatten_clusters(&numbered(5), &two_clusters(), 7).unwrap();
    let done = with_proxy(bare(), vec![0, 6, 3]).unwrap();
    assert_eq!(done.simplified_indices, vec![0, 6, 3]);
    assert_eq!(done.whole_mesh_indices, bare().whole_mesh_indices);
    assert_eq!(done.meshlets, bare().meshlets);
    assert_eq!(done.material_index, 7);
    assert!(with_proxy(bare(), vec![]).unwrap().simplified_indices.is_empty());
    // Seven vertices: 7 names none.
    assert!(matches!(with_proxy(bare(), vec![0, 7, 3]), Err(MeshError::MalformedSimplification)));
    assert!(matches!(with_proxy(bare(), vec![0, 1]), Err(MeshError::MalformedSimplification)));
    assert!(matches!(with_proxy(bare(), vec![0; 258]), Err(MeshError::MalformedSimplification)));
    assert!(with_proxy(bare(), vec![0; 255]).is_ok());
}

#[test]
fn the_proxy_is_made_anew_and_is_no_longer_than_the_mesh() {
    let mut mesh = flatten_clusters(&numbered(5), &two_clusters(), 7).unwrap();
    assert_eq!(mesh.whole_mesh_indices.len(), 9);
    // A proxy from elsewhere: valid, but longer than the mesh itself.
    mesh.simplified_indices = vec![0; 255];
    let done = attach_proxy(mesh).unwrap();
    assert!(done.simplified_indices.len() <= 9);
    assert_eq!(done.simplified_indices.len() % 3, 0);
    assert!(done.simplified_indices.iter().all(|i| (*i as usize) < done.vertices.len()));
    assert_eq!(done.whole_mesh_indices, vec![2, 1, 0, 3, 4, 5, 5, 4, 6]);
    assert_eq!(done.material_index, 7);

    let cube = extract_primitive(&cube()).unwrap();
    assert!(cube.simplified_indices.len() <= 36);
    let grid = extract_primitive(&grid(24)).unwrap();
    assert_eq!(grid.whole_mesh_indices.len(), 6 * 24 * 24);
    assert!(grid.simplified_indices.len() <= 256);
    assert!(!grid.simplified_indices.is_empty());
}

fn unindexed(positions: Vec<[f32; 3]>, uvs: Vec<[f32; 2]>) -> PrimitiveSource {
    PrimitiveSource {
        normals: Some(positions.iter().map(|_| bits3([0.0, 0.0, 1.0])).collect()),
        positions: Some(positions.into_iter().map(bits3).collect()),
        uvs: Some(uvs.into_iter().map(bits2).collect()),
        indices: None,
        material_index: Some(0),
    }
}

#[test]
fn one_triangle_is_mirrored_and_wound_the_other_way() {
    let source = unindexed(
        vec![[1.0, 0.0, 0.0], [2.0, 1.0, 0.0], [3.0, 0.0, 1.0]],
        vec![[0.0, 0.0], [1.0, 0.0], [0.0, 1.0]],
    );
    let mesh = extract_primitive(&source).unwrap();
    assert_eq!(mesh.meshlets, vec![Meshlet::new(0, 3, 0, 1)]);
    assert_eq!(mesh.vertices.len(), 3);
    assert_eq!(mesh.whole_mesh_indices, vec![0, 1, 2]);
    let drawn: Vec<[u32; 3]> =
        mesh.whole_mesh_indices.iter().map(|i| mesh.vertices[*i as usize].position).collect();
    assert_eq!(
        drawn,
        vec![bits3([-1.0, 0.0, 0.0]), bits3([-3.0, 0.0, 1.0]), bits3([-2.0, 1.0, 0.0])]
    );
}

#[test]
fn equal_vertices_of_two_triangles_collapse() {
    let (a, b, c, d) = ([1.0, 0.0, 0.0], [2.0, 1.0, 0.0], [3.0, 0.0, 1.0], [4.0, 1.0, 1.0]);
    let (ua, ub, uc, ud) = ([0.0, 0.0], [1.0, 0.0], [0.0, 1.0], [1.0, 1.0]);
    let source = unindexed(vec![a, b, c, c, b, d], vec![ua, ub, uc, uc, ub, ud]);
    let mesh = extract_primitive(&source).unwrap();
    assert_eq!(mesh.vertices.len(), 4);
    assert_eq!(mesh.whole_mesh_indices.len(), 6);
    assert_eq!(mesh.meshlets, vec![Meshlet::new(0, 4, 0, 2)]);
    assert_partition(&mesh);
}

#[test]
fn a_position_that_is_no_finite_number_is_refused() {
    for bad in [f32::NAN, f32::INFINITY, f32::NEG_INFINITY] {
        for axis in 0..3 {
            let mut corner = [3.0, 0.0, 1.0];
            corner[axis] = bad;
            let source = unindexed(
                vec![[1.0, 0.0, 0.0], [2.0, 1.0, 0.0], corner],
                vec![[0.0, 0.0], [1.0, 0.0], [0.0, 1.0]],
            );
            assert!(matches!(extract_primitive(&source), Err(MeshError::NonFinitePosition)));
        }
    }
    // Normals and texture coordinates are of no concern to the optimizer.
    let mut source = unindexed(
        vec![[1.0, 0.0, 0.0], [2.0, 1.0, 0.0], [3.0, 0.0, 1.0]],
        vec![[0.0, 0.0], [1.0, 0.0], [f32::NAN, 1.0]],
    );
    source.normals.as_mut().unwrap()[0] = bits3([f32::INFINITY, 0.0, 0.0]);
    assert!(extract_primitive(&source).is_ok());
    // The largest finite number and the smallest are positions like any other.
    let wide = unindexed(
        vec![[f32::MAX, 0.0, 0.0], [f32::MIN, 1.0, 0.0], [0.0, f32::MIN_POSITIVE, 1.0]],
        vec![[0.0, 0.0], [1.0, 0.0], [0.0, 1.0]],
    );
    assert!(extract_primitive(&wide).is_ok());

    assert!(check_finite_positions(&numbered(3)));
    assert!(check_finite_positions(&vec![]));
    let mut vertices = numbered(3);
    vertices[2].position[1] = 0x7F80_0000;
    assert!(!check_finite_positions(&vertices));
    vertices[2].position[1] = 0xFFC0_0000;
    assert!(!check_finite_positions(&vertices));
    vertices[2].position[1] = 0x7F7F_FFFF;
    assert!(check_finite_positions(&vertices));

    let mut mesh = flatten_clusters(&numbered(5), &two_clusters(), 7).unwrap();
    mesh.vertices[6].position[2] = f32::NAN.to_bits();
    assert!(matches!(attach_proxy(mesh), Err(MeshError::NonFinitePosition)));
}
