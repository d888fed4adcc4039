use std::cmp::Ordering;
use std::sync::Arc;
use thunder::audio_database::{AudioDatabaseResource, AudioDecodeError, AUDIO_DATABASE_IDENTIFIER};
use thunder::compiler::{AsyncCompiler, CompilerOptions};
use thunder::container::{Field, Record};
use thunder::container_decode::DecodeError;
use thunder::container_encode::encode_root;
use thunder::geometry_builder::{
    build_geometry_database, build_materials, check_laid_out, check_starts_inside,
    material_record, GeometryDatabaseResource,
};
use thunder::geometry_database::{
    check_mappings_sorted, geometry_database_buffer_has_identifier, get_root_as_geometry_database,
    GeometryDatabase, GeometryDecodeError, Material, MeshData, MeshMapping, PrimitiveMeshData,
    GEOMETRY_DATABASE_IDENTIFIER, NO_TEXTURE,
};
use thunder::material_database::{find_request, requests_for_images, MaterialDatabaseResource};
use thunder::mesh::{encode_vertices, MeshSource, PrimitiveSource};
use thunder::mesh_resource::extract_mesh;
use thunder::meshlet::Meshlet;
use thunder::resources::{Resource, ResourceId};
use thunder::scene::{Camera, GltfData, MaterialSource, Node, Scene};
use thunder::tables::{decode_table, decode_words, encode_table, encode_words};
use thunder::texture::{
    channel_count, ColorSpace, CompiledTextureData, ImageFormat, TextureData, TextureFormat,
    TextureRequest, TextureResource,
};
use thunder::texture_database::{
    TextureDatabase, TextureDatabaseResource, TextureDecodeError, TextureMapping,
    TEXTURE_DATABASE_IDENTIFIER,
};
use thunder::wire::{push_bytes, push_u32, read_u32};

fn compiler() -> Arc<AsyncCompiler> {
    Arc::new(AsyncCompiler::new(CompilerOptions {
        output_folder: "out".to_string(),
        input_folder: "in".to_string(),
    }))
}

fn bits3(v: [f32; 3]) -> [u32; 3] {
    [v[0].to_bits(), v[1].to_bits(), v[2].to_bits()]
}

fn quad(material: usize, height: f32) -> PrimitiveSource {
    let corners = [[0.0, 0.0, height], [1.0, 0.0, height], [1.0, 1.0, height], [0.0, 1.0, height]];
    PrimitiveSource {
        positions: Some(corners.iter().map(|c| bits3(*c)).collect()),
        normals: Some(vec![bits3([0.0, 0.0, 1.0]); 4]),
        uvs: Some(corners.iter().map(|c| [c[0].to_bits(), c[1].to_bits()]).collect()),
        indices: Some(vec![0, 1, 2, 0, 2, 3]),
        material_index: Some(material),
    }
}

fn material(base: Option<usize>, surface: Option<usize>) -> MaterialSource {
    MaterialSource {
        base_color_texture: base,
        metallic_roughness_texture: surface,
        base_color_factor: [1, 2, 3, 4],
        metallic_factor: 5,
        roughness_factor: 6,
    }
}

fn node(mesh: Option<usize>) -> Node {
    Node {
        name: None,
        children: vec![],
        mesh,
        camera: None,
        light: None,
        extension: None,
        transform: [0; 16],
    }
}

/// A scene with three meshes of which the nodes use the second and the third.
fn scene() -> Scene {
    let gltf = GltfData {
        nodes: vec![node(Some(2)), node(Some(1)), node(None)],
        meshes: vec![
            MeshSource { primitives: vec![quad(0, 0.0)] },
            MeshSource { primitives: vec![quad(1, 1.0), quad(0, 2.0)] },
            MeshSource { primitives: vec![quad(1, 3.0)] },
        ],
        materials: vec![material(Some(7), None), material(Some(3), Some(7))],
        scenes: vec![vec![0, 1, 2]],
        image_count: 8,
    };
    assert!(gltf.validate());
    Scene::new(gltf, Camera::default_camera()).unwrap()
}

fn extracted(scene: &Scene) -> Vec<thunder::mesh::MeshData> {
    scene.meshes.iter().map(|m| extract_mesh(&scene.gltf.meshes[*m]).unwrap()).collect()
}

fn same_database(a: &GeometryDatabase, b: &GeometryDatabase) -> bool {
    a.vertex_buffer == b.vertex_buffer
        && a.meshlet_indices_buffer == b.meshlet_indices_buffer
        && a.meshlet_buffer == b.meshlet_buffer
        && a.primitive_meshes == b.primitive_meshes
        && a.materials == b.materials
        && a.mappings == b.mappings
}

#[test]
fn numbers_are_written_least_significant_byte_first() {
    let mut out = vec![9];
    push_u32(&mut out, 0x0403_0201);
    assert_eq!(out, vec![9, 1, 2, 3, 4]);
    assert_eq!(read_u32(&out, 1), 0x0403_0201);
    push_bytes(&mut out, &[7, 7]);
    assert_eq!(out, vec![9, 1, 2, 3, 4, 7, 7]);
}

#[test]
fn words_survive_a_round_trip() {
    let words = vec![0, 1, 0xFFFF_FFFF, 0x8000_0000];
    let bytes = encode_words(&words);
    assert_eq!(bytes.len(), 16);
    assert_eq!(decode_words(&bytes), Some(words));
    assert_eq!(decode_words(&bytes[1..]), None);
}

#[test]
fn a_table_survives_a_round_trip() {
    let table = vec![Meshlet::new(1, 2, 3, 4), Meshlet::new(5, 6, 7, 8)];
    let bytes = encode_table(&table);
    assert_eq!(bytes.len(), 32);
    assert_eq!(&bytes[0..8], &[1, 0, 0, 0, 2, 0, 0, 0]);
    assert_eq!(decode_table::<Meshlet>(&bytes), Some(table));
}

#[test]
fn a_table_of_half_a_record_is_no_table() {
    let bytes = encode_table(&vec![Meshlet::new(1, 2, 3, 4)]);
    assert!(decode_table::<Meshlet>(&bytes[..12]).is_none());
    assert!(decode_table::<MeshMapping>(&bytes).is_none());
    assert_eq!(decode_table::<Meshlet>(&[]), Some(vec![]));
}

#[test]
fn the_rows_of_the_tables_hand_out_what_they_hold() {
    let primitive = PrimitiveMeshData::new(1, 2, 3);
    assert_eq!(
        (primitive.meshlets_offset(), primitive.meshlets_count(), primitive.material_index()),
        (1, 2, 3)
    );
    let data = MeshData::new(4, 5);
    assert_eq!((data.primitive_mesh_offset(), data.primitive_mesh_count()), (4, 5));
    let mapping = MeshMapping::new(6, &data);
    assert_eq!(mapping.index(), 6);
    assert_eq!(*mapping.mesh_data(), data);
    assert!(mapping.key_compare_less_than(&MeshMapping::new(7, &data)));
    assert!(!mapping.key_compare_less_than(&MeshMapping::new(6, &data)));
    let m = Material::new(&[1, 2, 3, 4], 5, 6, 7, 8);
    assert_eq!(m.albedo_color_factor(), [1, 2, 3, 4]);
    assert_eq!(m.metallic_factor(), 5);
    assert_eq!(m.roughness_factor(), 6);
    assert_eq!(m.albedo_color_texture_index(), 7);
    assert_eq!(m.metallic_roughness_texture_index(), 8);
}

#[test]
fn a_resource_id_of_zero_names_nothing() {
    assert!(!ResourceId::invalid().is_valid());
    assert!(ResourceId(1).is_valid());
    assert_eq!(ResourceId::invalid(), ResourceId(0));
}

#[test]
fn a_material_without_texture_says_so() {
    let plain = material_record(&material(None, None));
    assert_eq!(plain.albedo_color_texture_index, NO_TEXTURE);
    assert_eq!(plain.metallic_roughness_texture_index, u32::MAX);
    let textured = material_record(&material(Some(3), Some(9)));
    assert_eq!(textured.albedo_color_texture_index, 3);
    assert_eq!(textured.metallic_roughness_texture_index, 9);
    assert_eq!(textured.albedo_color_factor(), [1, 2, 3, 4]);
    assert_eq!(textured.metallic_factor, 5);
    assert_eq!(textured.roughness_factor, 6);
}

#[test]
fn the_material_table_follows_the_materials_in_use() {
    let sources = vec![material(Some(1), None), material(None, None), material(Some(2), None)];
    let table = build_materials(&sources, &vec![0, 2]).unwrap();
    assert_eq!(table.len(), 2);
    assert_eq!(table[0].albedo_color_texture_index, 1);
    assert_eq!(table[1].albedo_color_texture_index, 2);
}

#[test]
fn the_mapping_table_is_sorted_and_names_the_primitives_of_each_mesh() {
    let scene = scene();
    assert_eq!(scene.meshes, vec![1, 2]);
    let meshes = extracted(&scene);
    let database = build_geometry_database(&scene.meshes, &meshes, vec![]).unwrap();
    assert_eq!(
        database.mappings,
        vec![
            MeshMapping::new(1, &MeshData::new(0, 2)),
            MeshMapping::new(2, &MeshData::new(2, 1)),
        ]
    );
    assert!(check_mappings_sorted(&database.mappings));
}

#[test]
fn every_primitive_gets_its_own_range_of_the_buffers() {
    let scene = scene();
    let meshes = extracted(&scene);
    let database = build_geometry_database(&scene.meshes, &meshes, vec![]).unwrap();
    let primitives: Vec<&thunder::mesh::PrimitiveMeshData> =
        meshes.iter().flat_map(|m| m.primitive_meshes.iter()).collect();
    assert_eq!(database.primitive_meshes.len(), 3);
    let mut vertices = 0u32;
    let mut corners = 0u32;
    let mut meshlets = 0u32;
    let mut vertex_bytes = vec![];
    let mut corner_bytes = vec![];
    for (entry, primitive) in database.primitive_meshes.iter().zip(primitives.iter()) {
        assert_eq!(entry.meshlets_offset, meshlets);
        assert_eq!(entry.meshlets_count as usize, primitive.meshlets.len());
        assert_eq!(entry.material_index as usize, primitive.material_index);
        for (i, m) in primitive.meshlets.iter().enumerate() {
            let moved = database.meshlet_buffer[meshlets as usize + i];
            assert_eq!(moved.vertex_offset, m.vertex_offset + vertices);
            assert_eq!(moved.triangle_offset, m.triangle_offset + corners);
            assert_eq!(moved.vertex_count, m.vertex_count);
            assert_eq!(moved.triangle_count, m.triangle_count);
        }
        vertex_bytes.extend(encode_vertices(&primitive.vertices));
        corner_bytes.extend(primitive.meshlet_indices.iter());
        vertices += primitive.vertices.len() as u32;
        corners += primitive.meshlet_indices.len() as u32;
        meshlets += primitive.meshlets.len() as u32;
    }
    assert_eq!(database.meshlet_buffer.len(), meshlets as usize);
    assert_eq!(database.vertex_buffer, vertex_bytes);
    assert_eq!(database.meshlet_indices_buffer, corner_bytes);
    assert_eq!(database.vertex_buffer.len(), 32 * vertices as usize);
}

#[test]
fn a_level_without_meshes_has_empty_buffers() {
    let database = build_geometry_database(&vec![], &vec![], vec![]).unwrap();
    assert!(database.vertex_buffer.is_empty());
    assert!(database.meshlet_indices_buffer.is_empty());
    assert!(database.meshlet_buffer.is_empty());
    assert!(database.primitive_meshes.is_empty());
    assert!(database.mappings.is_empty());
    let bytes = database.encode().unwrap();
    assert!(same_database(&GeometryDatabase::decode(&bytes).unwrap(), &database));
}

#[test]
fn a_mesh_index_beyond_32_bits_does_not_fit() {
    if usize::BITS > 32 {
        let mesh = thunder::mesh::MeshData { primitive_meshes: vec![] };
        assert!(build_geometry_database(&vec![u32::MAX as usize + 1], &vec![mesh], vec![]).is_err());
    }
}

#[test]
fn the_geometry_resource_builds_the_database_of_its_scene() {
    let scene = Arc::new(scene());
    let meshes = Arc::new(extracted(&scene));
    let resource = GeometryDatabaseResource::new(scene.clone(), meshes);
    let database = resource.compile(compiler()).unwrap();
    assert_eq!(database.mappings.len(), 2);
    assert_eq!(database.materials.len(), 2);
    assert_eq!(database.materials[0].albedo_color_texture_index, 7);
    assert_eq!(database.materials[1].albedo_color_texture_index, 3);
    assert_eq!(database.materials[1].metallic_roughness_texture_index, 7);
}

#[test]
fn a_geometry_database_survives_a_round_trip() {
    let scene = scene();
    let meshes = extracted(&scene);
    let materials = build_materials(&scene.gltf.materials, &scene.materials).unwrap();
    let database = build_geometry_database(&scene.meshes, &meshes, materials).unwrap();
    let bytes = database.encode().unwrap();
    assert_eq!(&bytes[0..4], b"TGDB");
    assert_eq!(GEOMETRY_DATABASE_IDENTIFIER, *b"TGDB");
    let back = GeometryDatabase::decode(&bytes).unwrap();
    assert!(same_database(&back, &database));
    assert!(check_mappings_sorted(&back.mappings));
}

#[test]
fn a_mesh_is_found_by_its_key() {
    let keys = [2u32, 3, 5, 8, 13, 21, 34];
    let database = GeometryDatabase {
        vertex_buffer: vec![1, 2],
        meshlet_indices_buffer: vec![3],
        meshlet_buffer: vec![Meshlet::new(1, 2, 3, 4)],
        primitive_meshes: vec![PrimitiveMeshData::new(0, 1, 0)],
        materials: vec![],
        mappings: keys.iter().map(|k| MeshMapping::new(*k, &MeshData::new(10 * k, 1))).collect(),
    };
    for k in keys {
        assert_eq!(database.lookup_by_key(k), Some(MeshData::new(10 * k, 1)));
    }
    for k in [0, 1, 4, 20, 22, 35, u32::MAX] {
        assert_eq!(database.lookup_by_key(k), None);
    }
    let entry = database.mappings[2];
    assert_eq!(entry.key_compare_with_value(4), Ordering::Greater);
    assert_eq!(entry.key_compare_with_value(5), Ordering::Equal);
    assert_eq!(entry.key_compare_with_value(6), Ordering::Less);
    assert_eq!(database.vertex_buffer(), Some(&[1u8, 2][..]));
    assert_eq!(database.meshlet_indices_buffer(), Some(&[3u8][..]));
    assert_eq!(database.meshlet_buffer(), Some(&[Meshlet::new(1, 2, 3, 4)][..]));
    assert_eq!(database.primitive_meshes(), Some(&[PrimitiveMeshData::new(0, 1, 0)][..]));
    assert_eq!(database.materials(), Some(&[][..]));
    assert_eq!(database.mappings().map(|table| table.len()), Some(7));
}

#[test]
fn a_geometry_database_is_known_by_its_tag() {
    let database = build_geometry_database(&vec![], &vec![], vec![]).unwrap();
    let bytes = database.encode().unwrap();
    assert!(geometry_database_buffer_has_identifier(&bytes));
    assert!(geometry_database_buffer_has_identifier(b"TGDB"));
    assert!(!geometry_database_buffer_has_identifier(b"TGD"));
    assert!(!geometry_database_buffer_has_identifier(b"TTDB...."));
    assert!(same_database(&get_root_as_geometry_database(&bytes).unwrap(), &database));
    assert!(matches!(
        get_root_as_geometry_database(b"TGDB"),
        Err(GeometryDecodeError::Container(DecodeError::NoRoot))
    ));
}

#[test]
fn a_mapping_table_that_is_not_sorted_is_not_read() {
    let database = GeometryDatabase {
        vertex_buffer: vec![],
        meshlet_indices_buffer: vec![],
        meshlet_buffer: vec![],
        primitive_meshes: vec![],
        materials: vec![],
        mappings: vec![
            MeshMapping::new(2, &MeshData::new(0, 0)),
            MeshMapping::new(1, &MeshData::new(0, 0)),
        ],
    };
    let bytes = database.encode().unwrap();
    assert!(matches!(GeometryDatabase::decode(&bytes), Err(GeometryDecodeError::NotSorted)));
    let mut twice = database;
    twice.mappings[1] = MeshMapping::new(2, &MeshData::new(0, 0));
    let bytes = twice.encode().unwrap();
    assert!(matches!(GeometryDatabase::decode(&bytes), Err(GeometryDecodeError::NotSorted)));
}

#[test]
fn a_file_of_another_kind_is_no_geometry_database() {
    let audio = AudioDatabaseResource::new(vec![1, 2, 3]).compile(compiler()).unwrap();
    assert!(matches!(
        GeometryDatabase::decode(&audio),
        Err(GeometryDecodeError::Container(DecodeError::WrongTag))
    ));
    let wrong = encode_root(&GEOMETRY_DATABASE_IDENTIFIER, &Record { fields: vec![Field::Inline(vec![])] });
    assert!(matches!(
        GeometryDatabase::decode(&wrong.unwrap()),
        Err(GeometryDecodeError::WrongShape)
    ));
}

#[test]
fn the_music_survives_a_round_trip() {
    let music: Vec<u8> = (0..200).collect();
    let bytes = AudioDatabaseResource::new(music.clone()).compile(compiler()).unwrap();
    assert_eq!(&bytes[0..4], b"TADB");
    assert_eq!(AUDIO_DATABASE_IDENTIFIER, *b"TADB");
    assert_eq!(AudioDatabaseResource::decode(&bytes).unwrap().background_music, music);
}

#[test]
fn a_file_of_another_shape_is_no_audio_database() {
    let wrong = encode_root(&AUDIO_DATABASE_IDENTIFIER, &Record { fields: vec![] }).unwrap();
    assert!(matches!(AudioDatabaseResource::decode(&wrong), Err(AudioDecodeError::WrongShape)));
    let strided = encode_root(
        &AUDIO_DATABASE_IDENTIFIER,
        &Record { fields: vec![Field::VectorOfValues { stride: 2, bytes: vec![] }] },
    )
    .unwrap();
    assert!(matches!(AudioDatabaseResource::decode(&strided), Err(AudioDecodeError::WrongShape)));
    assert!(matches!(
        AudioDatabaseResource::decode(b"none"),
        Err(AudioDecodeError::Container(DecodeError::NoRoot))
    ));
}

#[test]
fn the_channels_of_a_pixel_format_are_counted() {
    assert_eq!(channel_count(ImageFormat::R8), 1);
    assert_eq!(channel_count(ImageFormat::R16), 1);
    assert_eq!(channel_count(ImageFormat::R8G8), 2);
    assert_eq!(channel_count(ImageFormat::R16G16), 2);
    assert_eq!(channel_count(ImageFormat::R8G8B8), 3);
    assert_eq!(channel_count(ImageFormat::B8G8R8), 3);
    assert_eq!(channel_count(ImageFormat::R16G16B16), 3);
    assert_eq!(channel_count(ImageFormat::R8G8B8A8), 4);
    assert_eq!(channel_count(ImageFormat::B8G8R8A8), 4);
    assert_eq!(channel_count(ImageFormat::R16G16B16A16), 4);
}

#[test]
fn formats_and_colour_spaces_are_stored_by_number() {
    for format in [TextureFormat::Rgba8, TextureFormat::Bc1Rgb, TextureFormat::Bc7Rgba] {
        assert_eq!(TextureFormat::from_code(format.code()), Some(format));
    }
    for space in [ColorSpace::Linear, ColorSpace::Srgb] {
        assert_eq!(ColorSpace::from_code(space.code()), Some(space));
    }
    assert_eq!(TextureFormat::from_code(3), None);
    assert_eq!(ColorSpace::from_code(2), None);
    let info = TextureData::new(64, 32, TextureFormat::Bc7Rgba, ColorSpace::Srgb);
    assert_eq!(info, TextureData { width: 64, height: 32, format: 2, color_space: 1 });
}

#[test]
fn a_compiled_texture_keeps_what_was_asked_for() {
    let request = TextureRequest {
        texture_index: 4,
        color_space: ColorSpace::Linear,
        format: TextureFormat::Bc1Rgb,
    };
    let resource = TextureResource::new(Arc::new(scene()), request);
    let texture = resource.finish(vec![1, 2, 3], 16, 8);
    assert_eq!(texture.data, vec![1, 2, 3]);
    assert_eq!(texture.texture_info, TextureData { width: 16, height: 8, format: 1, color_space: 0 });
}

fn texture(bytes: usize, width: u32) -> CompiledTextureData {
    CompiledTextureData {
        data: vec![width as u8; bytes],
        texture_info: TextureData::new(width, width, TextureFormat::Bc1Rgb, ColorSpace::Srgb),
    }
}

#[test]
fn textures_are_laid_out_one_after_the_other() {
    let database = TextureDatabase::build(&vec![3, 7], &vec![texture(10, 4), texture(6, 8)]).unwrap();
    assert_eq!(database.texture_data_buffer.len(), 16);
    assert_eq!(&database.texture_data_buffer[0..10], &[4; 10]);
    assert_eq!(&database.texture_data_buffer[10..16], &[8; 6]);
    let info = TextureData { width: 4, height: 4, format: 1, color_space: 1 };
    assert_eq!(database.mappings[0], TextureMapping::new(3, 0, 10, &info));
    assert_eq!(database.mappings[1].index, 7);
    assert_eq!(database.mappings[1].texture_data_offset, 10);
    assert_eq!(database.mappings[1].texture_data_size, 6);
    assert!(database.mappings[0].key_compare_less_than(&database.mappings[1]));
}

#[test]
fn a_texture_database_survives_a_round_trip() {
    let database = TextureDatabase::build(&vec![3, 7], &vec![texture(10, 4), texture(6, 8)]).unwrap();
    let bytes = database.encode().unwrap();
    assert_eq!(&bytes[0..4], b"TTDB");
    assert_eq!(TEXTURE_DATABASE_IDENTIFIER, *b"TTDB");
    let back = TextureDatabase::decode(&bytes).unwrap();
    assert_eq!(back.texture_data_buffer, database.texture_data_buffer);
    assert_eq!(back.mappings, database.mappings);
}

#[test]
fn a_texture_table_that_is_not_sorted_is_not_read() {
    let info = TextureData { width: 1, height: 1, format: 0, color_space: 0 };
    let database = TextureDatabase {
        texture_data_buffer: vec![],
        mappings: vec![TextureMapping::new(5, 0, 0, &info), TextureMapping::new(5, 0, 0, &info)],
    };
    let bytes = database.encode().unwrap();
    assert!(matches!(TextureDatabase::decode(&bytes), Err(TextureDecodeError::NotSorted)));
    let wrong = encode_root(&TEXTURE_DATABASE_IDENTIFIER, &Record { fields: vec![] }).unwrap();
    assert!(matches!(TextureDatabase::decode(&wrong), Err(TextureDecodeError::WrongShape)));
}

#[test]
fn the_texture_resource_maps_the_images_in_use() {
    let scene = Arc::new(scene());
    assert_eq!(scene.textures, vec![3, 7]);
    let resource = TextureDatabaseResource::new(scene, vec![texture(2, 1), texture(3, 2)]);
    let database = resource.compile(compiler()).unwrap();
    assert_eq!(database.mappings.len(), 2);
    assert_eq!(database.mappings[0].index, 3);
    assert_eq!(database.mappings[1].index, 7);
}

#[test]
fn every_texture_of_a_material_is_requested() {
    let resource = MaterialDatabaseResource::new(Arc::new(scene()));
    let (requests, materials) = resource.compile(compiler()).unwrap();
    assert_eq!(
        requests,
        vec![
            TextureRequest { texture_index: 7, color_space: ColorSpace::Srgb, format: TextureFormat::Bc1Rgb },
            TextureRequest { texture_index: 3, color_space: ColorSpace::Srgb, format: TextureFormat::Bc1Rgb },
            TextureRequest { texture_index: 7, color_space: ColorSpace::Linear, format: TextureFormat::Bc1Rgb },
        ]
    );
    assert_eq!(materials.len(), 2);
    assert_eq!(materials[0].albedo_color_texture_index, 0);
    assert_eq!(materials[0].metallic_roughness_texture_index, NO_TEXTURE);
    assert_eq!(materials[1].albedo_color_texture_index, 1);
    assert_eq!(materials[1].metallic_roughness_texture_index, 2);
    assert_eq!(materials[1].albedo_color_factor(), [1, 2, 3, 4]);
}

#[test]
fn an_image_is_compressed_by_the_first_request_for_it() {
    let scene = scene();
    let (requests, _) = MaterialDatabaseResource::new(Arc::new(scene)).compile(compiler()).unwrap();
    let srgb = |image| TextureRequest {
        texture_index: image,
        color_space: ColorSpace::Srgb,
        format: TextureFormat::Bc1Rgb,
    };
    assert_eq!(find_request(&requests, 7), Some(srgb(7)));
    assert_eq!(find_request(&requests, 3), Some(srgb(3)));
    assert_eq!(find_request(&requests, 4), None);
    assert_eq!(requests_for_images(&requests, &vec![3, 7]), Some(vec![srgb(3), srgb(7)]));
    assert_eq!(requests_for_images(&requests, &vec![]), Some(vec![]));
    assert_eq!(requests_for_images(&requests, &vec![3, 4, 7]), None);
    assert_eq!(requests_for_images(&vec![], &vec![3]), None);
}

#[test]
fn a_file_says_why_it_holds_no_database() {
    let database = TextureDatabase::build(&vec![3], &vec![texture(10, 4)]).unwrap();
    let bytes = database.encode().unwrap();
    assert!(matches!(
        TextureDatabase::decode(&bytes[..8]),
        Err(TextureDecodeError::Container(DecodeError::NoRoot))
    ));
    assert!(matches!(
        GeometryDatabase::decode(&bytes),
        Err(GeometryDecodeError::Container(DecodeError::WrongTag))
    ));
    // The root table is where the trailer says, but its first slot is of no kind.
    let mut spoiled = bytes.clone();
    let table = bytes.len() - 4 - bytes[bytes.len() - 4] as usize;
    spoiled[table + 4] = 9;
    assert!(matches!(
        TextureDatabase::decode(&spoiled),
        Err(TextureDecodeError::Container(DecodeError::Malformed))
    ));
}

/// One triangle whose buffer of local indices ends in a byte of padding.
fn padded_triangle() -> thunder::mesh::MeshData {
    let vertex = thunder::meshlet::VertexLayout { position: [1, 2, 3], normal: [0; 3], uv: [0; 2] };
    thunder::mesh::MeshData {
        primitive_meshes: vec![thunder::mesh::PrimitiveMeshData {
            meshlets: vec![Meshlet::new(0, 3, 0, 1)],
            vertices: vec![vertex; 3],
            meshlet_indices: vec![0, 1, 2, 0],
            whole_mesh_indices: vec![0, 1, 2],
            simplified_indices: vec![],
            material_index: 0,
        }],
    }
}

#[test]
fn padding_in_the_local_indices_is_laid_out_with_them() {
    let meshes = vec![padded_triangle(), padded_triangle()];
    assert!(check_laid_out(&meshes));
    let database = build_geometry_database(&vec![0, 1], &meshes, vec![]).unwrap();
    let bytes = database.encode().unwrap();
    let back = GeometryDatabase::decode(&bytes).unwrap();
    assert_eq!(back.meshlet_buffer, vec![Meshlet::new(0, 3, 0, 1), Meshlet::new(3, 3, 4, 1)]);
    assert_eq!(
        back.primitive_meshes,
        vec![PrimitiveMeshData::new(0, 1, 0), PrimitiveMeshData::new(1, 1, 0)]
    );
    assert_eq!(
        back.mappings,
        vec![MeshMapping::new(0, &MeshData::new(0, 1)), MeshMapping::new(1, &MeshData::new(1, 1))]
    );
    assert_eq!(back.meshlet_indices_buffer, vec![0, 1, 2, 0, 0, 1, 2, 0]);
    assert_eq!(back.vertex_buffer.len(), 192);
}

#[test]
fn a_meshlet_that_starts_outside_its_buffers_is_not_laid_out() {
    let mut mesh = padded_triangle();
    assert!(check_starts_inside(&mesh.primitive_meshes[0]));
    mesh.primitive_meshes[0].meshlets[0].vertex_offset = 4;
    assert!(!check_starts_inside(&mesh.primitive_meshes[0]));
    mesh.primitive_meshes[0].meshlets[0].vertex_offset = 3;
    mesh.primitive_meshes[0].meshlets[0].triangle_offset = 5;
    assert!(!check_laid_out(&vec![padded_triangle(), mesh]));
}
