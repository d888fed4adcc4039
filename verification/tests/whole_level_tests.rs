use std::sync::Arc;
use thunder::compiler::{AsyncCompiler, CompilerOptions};
use thunder::container_decode::decode_root;
use thunder::entities_world::{plan_entities, EntitiesWorldResource, Trs};
use thunder::geometry_builder::GeometryDatabaseResource;
use thunder::geometry_database::GeometryDatabase;
use thunder::level::{LevelResource, LEVEL_IDENTIFIER};
use thunder::mesh::{MeshData, MeshSource, PrimitiveSource};
use thunder::mesh_resource::MeshResource;
use thunder::orchestrator::{Action, Builder, Event, Orchestrator};
use thunder::physics_world::PhysicsWorldResource;
use thunder::resources::Resource;
use thunder::scene::{
    Camera, GltfData, Light, LightKind, MaterialSource, Node, Scene, TempestNodeExtension, ONE,
};
use thunder::texture::{ColorSpace, CompiledTextureData, TextureData, TextureFormat};
use thunder::texture_database::{TextureDatabase, TextureDatabaseResource};

fn compiler() -> Arc<AsyncCompiler> {
    Arc::new(AsyncCompiler::new(CompilerOptions {
        output_folder: "out".to_string(),
        input_folder: "in".to_string(),
    }))
}

fn bits3(v: [f32; 3]) -> [u32; 3] {
    [v[0].to_bits(), v[1].to_bits(), v[2].to_bits()]
}

/// A cube of twelve triangles.
fn cube(material: usize) -> PrimitiveSource {
    let corners: Vec<[f32; 3]> = (0..8)
        .map(|i| [(i & 1) as f32, ((i >> 1) & 1) as f32, ((i >> 2) & 1) as f32])
        .collect();
    let indices: Vec<u32> = vec![
        0, 2, 1, 1, 2, 3, 4, 5, 6, 5, 7, 6, 0, 1, 4, 1, 5, 4, 2, 6, 3, 3, 6, 7, 0, 4, 2, 2, 4, 6,
        1, 3, 5, 3, 7, 5,
    ];
    PrimitiveSource {
        positions: Some(corners.iter().map(|c| bits3(*c)).collect()),
        normals: Some(corners.iter().map(|c| bits3(*c)).collect()),
        uvs: Some(corners.iter().map(|c| [c[0].to_bits(), c[1].to_bits()]).collect()),
        indices: Some(indices),
        material_index: Some(material),
    }
}

/// A sphere of 24 segments and 20 rings: 960 triangles.
fn sphere(material: usize) -> PrimitiveSource {
    let (segments, rings) = (24u32, 20u32);
    let mut positions = vec![];
    let mut uvs = vec![];
    for ring in 0..=rings {
        let polar = std::f32::consts::PI * ring as f32 / rings as f32;
        for segment in 0..=segments {
            let azimuth = 2.0 * std::f32::consts::PI * segment as f32 / segments as f32;
            positions.push(bits3([
                polar.sin() * azimuth.cos(),
                polar.cos(),
                polar.sin() * azimuth.sin(),
            ]));
            uvs.push([
                (segment as f32 / segments as f32).to_bits(),
                (ring as f32 / rings as f32).to_bits(),
            ]);
        }
    }
    let mut indices = vec![];
    for ring in 0..rings {
        for segment in 0..segments {
            let a = ring * (segments + 1) + segment;
            let b = a + segments + 1;
            indices.extend_from_slice(&[a, b, a + 1, a + 1, b, b + 1]);
        }
    }
    assert_eq!(indices.len(), 960 * 3);
    PrimitiveSource {
        normals: Some(positions.clone()),
        positions: Some(positions),
        uvs: Some(uvs),
        indices: Some(indices),
        material_index: Some(material),
    }
}

fn node(name: &str, mesh: Option<usize>) -> Node {
    let one = 1.0f32.to_bits();
    Node {
        name: Some(name.to_string()),
        children: vec![],
        mesh,
        camera: None,
        light: None,
        extension: Some(TempestNodeExtension { physics_body: None, is_car: None }),
        transform: [one, 0, 0, 0, 0, one, 0, 0, 0, 0, one, 0, 0, 0, 0, one],
    }
}

fn material(texture: Option<usize>) -> MaterialSource {
    MaterialSource {
        base_color_texture: texture,
        metallic_roughness_texture: None,
        base_color_factor: [ONE; 4],
        metallic_factor: ONE,
        roughness_factor: ONE,
    }
}

fn words(bytes: &[u8]) -> Vec<u32> {
    bytes.chunks(4).map(|w| u32::from_le_bytes([w[0], w[1], w[2], w[3]])).collect()
}

fn placed() -> Trs {
    Trs { translate: [0; 3], rotate: [0, 0, 0, ONE], scale: [ONE; 3] }
}

fn extract_all(scene: &Arc<Scene>) -> Arc<Vec<MeshData>> {
    Arc::new(
        scene
            .meshes
            .iter()
            .map(|mesh| MeshResource::new(scene.clone(), *mesh).compile(compiler()).unwrap())
            .collect(),
    )
}

#[test]
fn a_cube_and_a_textured_sphere() {
    let gltf = GltfData {
        nodes: vec![node("Sphere", Some(1)), node("Cube", Some(0))],
        meshes: vec![
            MeshSource { primitives: vec![cube(0)] },
            MeshSource { primitives: vec![sphere(1)] },
        ],
        materials: vec![material(None), material(Some(0))],
        scenes: vec![vec![0, 1]],
        image_count: 1,
    };
    assert!(gltf.validate());
    let scene = Arc::new(Scene::new(gltf, Camera::default_camera()).unwrap());
    let meshes = extract_all(&scene);
    assert_eq!(meshes[0].primitive_meshes[0].whole_mesh_indices.len(), 12 * 3);
    assert_eq!(meshes[1].primitive_meshes[0].whole_mesh_indices.len(), 960 * 3);

    // The geometry database has two ascending mappings, each with at least one meshlet.
    let geometry = GeometryDatabaseResource::new(scene.clone(), meshes.clone())
        .compile(compiler())
        .unwrap();
    let geometry = GeometryDatabase::decode(&geometry.encode().unwrap()).unwrap();
    assert_eq!(geometry.mappings.len(), 2);
    assert!(geometry.mappings[0].index < geometry.mappings[1].index);
    for mapping in &geometry.mappings {
        assert!(mapping.mesh_data.primitive_mesh_count >= 1);
        let first = mapping.mesh_data.primitive_mesh_offset as usize;
        for primitive in &geometry.primitive_meshes[first..first + mapping.mesh_data.primitive_mesh_count as usize] {
            assert!(primitive.meshlets_count >= 1);
        }
    }
    let triangles: u32 = geometry.meshlet_buffer.iter().map(|m| m.triangle_count).sum();
    assert_eq!(triangles, 12 + 960);
    for meshlet in &geometry.meshlet_buffer {
        assert!(meshlet.vertex_count <= 128 && meshlet.triangle_count <= 128);
    }

    // The texture database has exactly one mapping.
    let texture = CompiledTextureData {
        data: vec![0xAB; 64],
        texture_info: TextureData::new(8, 8, TextureFormat::Bc1Rgb, ColorSpace::Srgb),
    };
    let textures = TextureDatabaseResource::new(scene.clone(), vec![texture])
        .compile(compiler())
        .unwrap();
    let textures = TextureDatabase::decode(&textures.encode().unwrap()).unwrap();
    assert_eq!(textures.mappings.len(), 1);
    assert_eq!(textures.mappings[0].index, 0);
    assert_eq!(textures.mappings[0].texture_data_size, 64);

    // The entity world has exactly two entities, each with a transform and a mesh.
    let plan = plan_entities(&scene).unwrap();
    assert_eq!(plan.len(), 2);
    let transforms = vec![placed(), placed()];
    let world = EntitiesWorldResource::new(scene.clone(), plan, transforms)
        .compile(compiler())
        .unwrap();
    let head = words(&world.blob[0..24]);
    assert_eq!(head[0], 1, "one archetype");
    assert_eq!(head[1], 2, "two entities");
    assert_eq!(head[2], 2, "two components");
    assert_eq!(&head[3..5], &[40, 4], "a transform and a mesh");
    let name = b"Transform,StaticMesh\0";
    assert_eq!(head[5] as usize, name.len());
    assert_eq!(&world.blob[24..24 + name.len()], name);
    assert_eq!(world.blob.len(), 24 + name.len() + 2 * 40 + 2 * 4);
    assert_eq!(world.node_to_entity_map.get(0), Some(0));
    assert_eq!(world.node_to_entity_map.get(1), Some(1));

    // Nothing has a physics body, so the physics world is empty, and the level can be assembled.
    let map = world.node_to_entity_map;
    let physics = PhysicsWorldResource::new(scene.clone(), meshes, map).compile(compiler()).unwrap();
    assert!(physics.is_empty());
    let level = LevelResource::new("Two".to_string());
    let bytes = level.assemble(&world.blob, &[], &scene.camera).unwrap();
    assert_eq!(decode_root(&LEVEL_IDENTIFIER, &bytes).unwrap().fields.len(), 7);
}

#[test]
fn a_directional_light_and_nothing_else() {
    let mut sun = node("Sun", None);
    sun.light = Some(Light {
        kind: LightKind::Directional,
        color: [ONE, ONE, ONE],
        intensity: 3.0f32.to_bits(),
    });
    let gltf = GltfData {
        nodes: vec![sun],
        meshes: vec![],
        materials: vec![],
        scenes: vec![vec![0]],
        image_count: 0,
    };
    assert!(gltf.validate());
    let scene = Arc::new(Scene::new(gltf, Camera::default_camera()).unwrap());
    assert!(scene.meshes.is_empty());

    // The geometry database has empty buffers.
    let geometry = GeometryDatabaseResource::new(scene.clone(), extract_all(&scene))
        .compile(compiler())
        .unwrap();
    let geometry = GeometryDatabase::decode(&geometry.encode().unwrap()).unwrap();
    assert!(geometry.vertex_buffer.is_empty());
    assert!(geometry.meshlet_indices_buffer.is_empty());
    assert!(geometry.meshlet_buffer.is_empty());
    assert!(geometry.primitive_meshes.is_empty());
    assert!(geometry.mappings.is_empty());

    // The entity world has exactly one entity, a directional light.
    let plan = plan_entities(&scene).unwrap();
    assert_eq!(plan.len(), 1);
    let world = EntitiesWorldResource::new(scene.clone(), plan, vec![placed()])
        .compile(compiler())
        .unwrap();
    let head = words(&world.blob[0..24]);
    assert_eq!(head[0], 1, "one archetype");
    assert_eq!(head[1], 1, "one entity");
    assert_eq!(head[2], 3, "two components and a tag");
    assert_eq!(&head[3..6], &[40, 16, 0], "a transform, a colour, and the tag");
    let name = b"Transform,LightColorInfo,DirectionalLight\0";
    let at = 28;
    assert_eq!(words(&world.blob[24..28])[0] as usize, name.len());
    assert_eq!(&world.blob[at..at + name.len()], name);
    let light = words(&world.blob[at + name.len() + 40..]);
    assert_eq!(light, vec![ONE, ONE, ONE, 3.0f32.to_bits()]);
}

#[test]
fn a_build_follows_the_orchestrator_from_scene_to_level() {
    let mut orchestrator = Orchestrator::new();
    let mut spawned = vec![];
    let mut pending = orchestrator.step(Event::SceneLoaded { mesh_count: 2 });
    let script = [
        Event::MeshExtracted,
        Event::MeshExtracted,
        Event::Finished(Builder::Texture),
        Event::Finished(Builder::Entities),
        Event::Finished(Builder::Geometry),
        Event::Finished(Builder::Physics),
        Event::Finished(Builder::Audio),
        Event::ArtifactWritten,
        Event::ArtifactWritten,
        Event::ArtifactWritten,
    ];
    let mut entities_finished = false;
    for event in script {
        for action in pending.drain(..) {
            if action == Action::Spawn(Builder::Physics) {
                assert!(entities_finished);
            }
            spawned.push(action);
        }
        if event == Event::Finished(Builder::Entities) {
            entities_finished = true;
        }
        pending = orchestrator.step(event);
    }
    assert_eq!(pending, vec![Action::Finish]);
    assert_eq!(spawned.iter().filter(|a| **a == Action::Spawn(Builder::Physics)).count(), 1);
    assert_eq!(spawned.iter().filter(|a| **a == Action::AssembleLevel).count(), 1);
    assert!(orchestrator.is_over());
}
