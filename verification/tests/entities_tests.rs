use std::collections::HashMap;
use std::sync::Arc;
use thunder::compiler::{AsyncCompiler, CompilerOptions};
use thunder::entities_world::{
    build_entities_world, components_of, find_car_part, plan_entities, tags_of, EntitiesError,
    EntitiesWorldResource, EntityKind, EntityRequest, NodeToEntityMap, Trs,
};
use thunder::flecs::{Components, FlecsState, Tags, TemporaryEntityId, UNPATCHED_CAR_ACTOR};
use thunder::mesh::{MeshSource, PrimitiveSource};
use thunder::resources::Resource;
use thunder::scene::{
    Camera, CollisionShape, CollisionShapeKind, GltfData, Light, LightKind, Node, PhysicsBody,
    Scene, TempestNodeExtension,
};

fn compiler() -> Arc<AsyncCompiler> {
    Arc::new(AsyncCompiler::new(CompilerOptions {
        output_folder: String::new(),
        input_folder: String::new(),
    }))
}

fn node(name: &str, children: Vec<usize>) -> Node {
    Node {
        name: Some(name.to_string()),
        children,
        mesh: None,
        camera: None,
        light: None,
        extension: None,
        transform: [0; 16],
    }
}

fn with_mesh(mut n: Node, mesh: usize, dynamic: Option<bool>) -> Node {
    n.mesh = Some(mesh);
    n.extension = Some(TempestNodeExtension {
        physics_body: dynamic.map(|dynamic| PhysicsBody {
            dynamic,
            collision_shape: CollisionShape { kind: CollisionShapeKind::Sphere, radius: None },
        }),
        is_car: None,
    });
    n
}

fn car(mut n: Node) -> Node {
    n.extension = Some(TempestNodeExtension { physics_body: None, is_car: Some(true) });
    n
}

fn light(mut n: Node, kind: LightKind) -> Node {
    n.light = Some(Light { kind, color: [1, 2, 3], intensity: 4 });
    n
}

fn empty_mesh() -> MeshSource {
    MeshSource {
        primitives: vec![PrimitiveSource {
            positions: Some(vec![]),
            normals: Some(vec![]),
            uvs: Some(vec![]),
            indices: Some(vec![]),
            material_index: None,
        }],
    }
}

fn scene(nodes: Vec<Node>, roots: Vec<usize>, meshes: usize) -> Scene {
    let gltf = GltfData {
        nodes,
        meshes: (0..meshes).map(|_| empty_mesh()).collect(),
        materials: vec![],
        scenes: vec![roots],
        image_count: 0,
    };
    assert!(gltf.validate());
    Scene::new(gltf, Camera::default_camera()).unwrap()
}

fn trs(seed: u32) -> Trs {
    Trs { translate: [seed, seed + 1, seed + 2], rotate: [0, 0, 0, 1], scale: [1, 1, 1] }
}

fn mesh_request(node: usize, mesh: u32) -> EntityRequest {
    EntityRequest {
        visit: node,
        node,
        is_car_part: false,
        kind: EntityKind::Mesh { mesh_index: mesh, dynamic: false, car_part: None },
    }
}

fn light_request(node: usize) -> EntityRequest {
    EntityRequest {
        visit: node,
        node,
        is_car_part: false,
        kind: EntityKind::DirectionalLight { color: [1, 2, 3], intensity: 4 },
    }
}

fn transform() -> Components {
    Components::Transform { position: [1, 2, 3], scale: [4, 5, 6], rotation: [7, 8, 9, 10] }
}

fn words(bytes: &[u8]) -> Vec<u32> {
    bytes.chunks(4).map(|w| u32::from_le_bytes([w[0], w[1], w[2], w[3]])).collect()
}

#[test]
fn components_and_tags_have_names() {
    assert_eq!(transform().get_name(), "Transform");
    assert_eq!(Components::StaticMesh { mesh: 0 }.get_name(), "StaticMesh");
    assert_eq!(Components::DynamicPhysicsActor { actor: 0 }.get_name(), "DynamicPhysicsActor");
    assert_eq!(Components::LightColorInfo { color: [0; 3], intensity: 0 }.get_name(), "LightColorInfo");
    assert_eq!(Components::CarPhysicsPart { car_actor: 0, shape_index: 0 }.get_name(), "CarPhysicsPart");
    assert_eq!(Tags::Boids.get_name(), "Boids");
    assert_eq!(Tags::DirectionalLight.get_name(), "DirectionalLight");
}

#[test]
fn a_component_is_written_word_by_word() {
    let mut out = vec![];
    transform().write(&mut out);
    assert_eq!(out.len(), 40);
    assert_eq!(transform().size(), 40);
    assert_eq!(words(&out), vec![1, 2, 3, 4, 5, 6, 7, 8, 9, 10]);
    let mut out = vec![];
    let part = Components::CarPhysicsPart { car_actor: 0x1_0000_0002, shape_index: 3 };
    part.write(&mut out);
    assert_eq!(part.size(), 16);
    assert_eq!(words(&out), vec![2, 1, 3, 0]);
    let mut out = vec![];
    Components::DynamicPhysicsActor { actor: u64::MAX }.write(&mut out);
    assert_eq!(out, vec![0xFF; 8]);
    assert_eq!(Components::StaticMesh { mesh: 1 }.size(), 4);
    assert_eq!(Components::LightColorInfo { color: [0; 3], intensity: 0 }.size(), 16);
}

#[test]
fn entities_of_one_kind_share_an_archetype() {
    let mut state = FlecsState::new();
    let first = state.create_entity("a", vec![transform(), Components::StaticMesh { mesh: 0 }], &vec![]);
    let other = state.create_entity("b", vec![transform()], &vec![Tags::DirectionalLight]);
    let second = state.create_entity("c", vec![transform(), Components::StaticMesh { mesh: 1 }], &vec![]);
    assert_eq!(first, TemporaryEntityId { archetype_index: 0, entity_index: 0 });
    assert_eq!(other, TemporaryEntityId { archetype_index: 1, entity_index: 0 });
    assert_eq!(second, TemporaryEntityId { archetype_index: 0, entity_index: 1 });
    assert_eq!(state.archetypes.len(), 2);
    assert_eq!(state.archetypes[0].name, "Transform,StaticMesh");
    assert_eq!(state.archetypes[0].num_components, 2);
    assert_eq!(state.archetypes[0].components_arrays.len(), 2);
    assert_eq!(state.archetypes[0].components_arrays[0].len(), 2);
    assert_eq!(state.archetypes[1].name, "Transform,DirectionalLight");
    assert_eq!(state.archetypes[1].num_components, 2);
    assert_eq!(state.archetypes[1].components_arrays.len(), 1);
}

#[test]
fn stable_ids_count_the_entities_of_the_archetypes_before() {
    let mut state = FlecsState::new();
    let a = state.create_entity("a", vec![transform(), Components::StaticMesh { mesh: 0 }], &vec![]);
    let b = state.create_entity("b", vec![transform()], &vec![Tags::DirectionalLight]);
    let c = state.create_entity("c", vec![transform(), Components::StaticMesh { mesh: 1 }], &vec![]);
    let d = state.create_entity("d", vec![transform()], &vec![]);
    state.finish_adding_entities();
    assert_eq!(state.archetype_num_entities_prefix_sum, vec![0, 2, 3]);
    assert_eq!(state.create_stable_entity_ids(a), 0);
    assert_eq!(state.create_stable_entity_ids(c), 1);
    assert_eq!(state.create_stable_entity_ids(b), 2);
    assert_eq!(state.create_stable_entity_ids(d), 3);
}

#[test]
fn no_two_entities_share_a_stable_id() {
    // Three entities of two components, then one of another kind.
    let mut state = FlecsState::new();
    let mut ids = vec![];
    for mesh in 0..3 {
        ids.push(state.create_entity("", vec![transform(), Components::StaticMesh { mesh }], &vec![]));
    }
    ids.push(state.create_entity("", vec![transform()], &vec![Tags::DirectionalLight]));
    state.finish_adding_entities();
    let stable: Vec<usize> = ids.into_iter().map(|id| state.create_stable_entity_ids(id)).collect();
    assert_eq!(stable, vec![0, 1, 2, 3]);

    let requests =
        vec![mesh_request(1, 0), mesh_request(2, 0), mesh_request(3, 0), light_request(4)];
    let transforms = vec![trs(0), trs(1), trs(2), trs(3)];
    let world = build_entities_world(&requests, &transforms).unwrap();
    assert_eq!(world.node_to_entity_map.entries, HashMap::from([(1, 0), (2, 1), (3, 2), (4, 3)]));
}

#[test]
fn the_world_is_written_archetype_by_archetype() {
    let mut state = FlecsState::new();
    state.create_entity("a", vec![Components::StaticMesh { mesh: 9 }], &vec![Tags::Boids]);
    state.create_entity("b", vec![Components::StaticMesh { mesh: 8 }], &vec![Tags::Boids]);
    state.finish_adding_entities();
    let mut out = vec![];
    assert!(state.write_to_buffer(&mut out).is_ok());
    let name = b"StaticMesh,Boids";
    let mut expected: Vec<u8> = vec![];
    for word in [1u32, 2, 2, 4, 0, name.len() as u32 + 1] {
        expected.extend_from_slice(&word.to_le_bytes());
    }
    expected.extend_from_slice(name);
    expected.push(0);
    expected.extend_from_slice(&9u32.to_le_bytes());
    expected.extend_from_slice(&8u32.to_le_bytes());
    assert_eq!(out, expected);
}

#[test]
fn an_empty_world_is_a_count_of_zero() {
    let mut state = FlecsState::new();
    state.finish_adding_entities();
    let mut out = vec![7];
    assert!(state.write_to_buffer(&mut out).is_ok());
    assert_eq!(out, vec![7, 0, 0, 0, 0]);
}

#[test]
fn the_parts_of_a_vehicle_are_known_by_their_names() {
    let car = "Truck".to_string();
    let names = ["_FrontLeftWheel", "_FrontRightWheel", "_RearLeftWheel", "_RearRightWheel", "_Chassis"];
    for (part, suffix) in names.iter().enumerate() {
        assert_eq!(find_car_part(&car, &format!("Truck{}", suffix)), Some(part as u32));
    }
    assert_eq!(find_car_part(&car, &"Truck_Door".to_string()), None);
    assert_eq!(find_car_part(&car, &"Car_Chassis".to_string()), None);
    assert_eq!(find_car_part(&car, &"_Chassis".to_string()), None);
}

#[test]
fn every_mesh_and_every_directional_light_gets_an_entity() {
    let scene = scene(
        vec![
            node("root", vec![1, 2, 3, 4]),
            with_mesh(node("static", vec![]), 1, None),
            light(node("sun", vec![]), LightKind::Directional),
            light(node("lamp", vec![]), LightKind::Point),
            with_mesh(node("ball", vec![]), 0, Some(true)),
        ],
        vec![0],
        2,
    );
    let plan = plan_entities(&scene).unwrap();
    assert_eq!(plan.len(), 3);
    assert_eq!((plan[0].visit, plan[0].node, plan[0].is_car_part), (1, 1, false));
    assert!(matches!(plan[0].kind, EntityKind::Mesh { mesh_index: 1, dynamic: false, car_part: None }));
    assert_eq!((plan[1].visit, plan[1].node), (2, 2));
    assert!(matches!(plan[1].kind, EntityKind::DirectionalLight { color: [1, 2, 3], intensity: 4 }));
    assert_eq!((plan[2].visit, plan[2].node), (4, 4));
    assert!(matches!(plan[2].kind, EntityKind::Mesh { mesh_index: 0, dynamic: true, car_part: None }));
}

#[test]
fn a_mesh_wins_over_a_light_on_the_same_node() {
    let both = light(with_mesh(node("both", vec![]), 0, Some(false)), LightKind::Directional);
    let plan = plan_entities(&scene(vec![both], vec![0], 1)).unwrap();
    assert_eq!(plan.len(), 1);
    assert!(matches!(plan[0].kind, EntityKind::Mesh { dynamic: false, .. }));
}

#[test]
fn a_mesh_without_annotations_cannot_be_planned() {
    let mut bare = node("bare", vec![]);
    bare.mesh = Some(0);
    let failed = plan_entities(&scene(vec![bare], vec![0], 1));
    assert!(matches!(failed, Err(EntitiesError::MissingExtension { node: 0 })));
}

fn truck() -> Vec<Node> {
    vec![
        node("root", vec![1, 2, 8]),
        with_mesh(node("before", vec![]), 0, None),
        car(node("Truck", vec![3, 4, 5, 6, 7])),
        with_mesh(node("Truck_Chassis", vec![]), 1, None),
        with_mesh(node("Truck_RearRightWheel", vec![]), 2, None),
        with_mesh(node("Truck_FrontLeftWheel", vec![]), 2, None),
        with_mesh(node("Truck_FrontRightWheel", vec![]), 2, None),
        with_mesh(node("Truck_RearLeftWheel", vec![]), 2, None),
        with_mesh(node("after", vec![]), 0, None),
    ]
}

#[test]
fn the_children_of_a_vehicle_are_its_parts_and_the_plan_goes_on_behind_it() {
    let plan = plan_entities(&scene(truck(), vec![0], 3)).unwrap();
    assert_eq!(plan.len(), 7);
    assert_eq!(plan[0].node, 1);
    assert_eq!((plan[6].visit, plan[6].node, plan[6].is_car_part), (8, 8, false));
    assert!(matches!(plan[6].kind, EntityKind::Mesh { mesh_index: 0, car_part: None, .. }));
    let parts: Vec<(usize, usize, bool, Option<u32>)> = plan[1..6]
        .iter()
        .map(|r| match r.kind {
            EntityKind::Mesh { car_part, dynamic: false, .. } => (r.visit, r.node, r.is_car_part, car_part),
            _ => panic!("a part of a vehicle is a mesh that does not move"),
        })
        .collect();
    assert_eq!(
        parts,
        vec![
            (2, 3, true, Some(4)),
            (2, 4, true, Some(3)),
            (2, 5, true, Some(0)),
            (2, 6, true, Some(1)),
            (2, 7, true, Some(2)),
        ]
    );
}

#[test]
fn a_child_of_a_vehicle_that_is_no_part_cannot_be_planned() {
    let mut nodes = truck();
    nodes[4].name = Some("Truck_Mirror".to_string());
    let failed = plan_entities(&scene(nodes, vec![0], 3));
    assert!(matches!(failed, Err(EntitiesError::UnknownCarPart { node: 4 })));
    let mut nodes = truck();
    nodes[5].mesh = None;
    let failed = plan_entities(&scene(nodes, vec![0], 3));
    assert!(matches!(failed, Err(EntitiesError::MissingMesh { node: 5 })));
}

#[test]
fn the_components_follow_from_the_kind_of_entity() {
    let placed = trs(10);
    let names = |request: &EntityRequest| -> Vec<&'static str> {
        components_of(request, &placed).iter().map(|c| c.get_name()).collect()
    };
    let mut request = mesh_request(0, 5);
    assert_eq!(names(&request), vec!["Transform", "StaticMesh"]);
    assert!(tags_of(&request).is_empty());
    request.kind = EntityKind::Mesh { mesh_index: 5, dynamic: true, car_part: None };
    assert_eq!(names(&request), vec!["Transform", "StaticMesh", "DynamicPhysicsActor"]);
    request.kind = EntityKind::Mesh { mesh_index: 5, dynamic: true, car_part: Some(2) };
    assert_eq!(names(&request), vec!["Transform", "StaticMesh", "CarPhysicsPart"]);
    match components_of(&request, &placed)[2] {
        Components::CarPhysicsPart { car_actor, shape_index } => {
            assert_eq!(car_actor, UNPATCHED_CAR_ACTOR);
            assert_eq!(car_actor, 9999);
            assert_eq!(shape_index, 2);
        }
        _ => panic!("the third component of a part is its place in the vehicle"),
    }
    match components_of(&request, &placed)[0] {
        Components::Transform { position, scale, rotation } => {
            assert_eq!(position, [10, 11, 12]);
            assert_eq!(scale, [1, 1, 1]);
            assert_eq!(rotation, [0, 0, 0, 1]);
        }
        _ => panic!("the first component is the transform"),
    }
    let sun = light_request(1);
    assert_eq!(names(&sun), vec!["Transform", "LightColorInfo"]);
    assert_eq!(tags_of(&sun), vec![Tags::DirectionalLight]);
}

#[test]
fn every_node_is_mapped_to_the_stable_id_of_its_entity() {
    let requests = vec![mesh_request(4, 0), light_request(2), mesh_request(9, 1)];
    let transforms = vec![trs(0), trs(1), trs(2)];
    let world = build_entities_world(&requests, &transforms).unwrap();
    assert_eq!(world.node_to_entity_map.entries, HashMap::from([(4, 0), (2, 2), (9, 1)]));
    assert_eq!(world.node_to_entity_map.get(9), Some(1));
    assert_eq!(world.node_to_entity_map.get(2), Some(2));
    assert_eq!(world.node_to_entity_map.get(3), None);
    assert_eq!(words(&world.blob[0..12]), vec![2, 2, 2]);
}

#[test]
fn a_node_that_is_entered_twice_keeps_its_last_id() {
    let mut map = NodeToEntityMap::new();
    map.insert(1, 10);
    map.insert(2, 20);
    map.insert(1, 30);
    assert_eq!(map.get(1), Some(30));
    assert_eq!(map.get(2), Some(20));
    assert_eq!(map.get(0), None);
}

#[test]
fn the_entities_resource_builds_the_world_of_its_plan() {
    let scene = Arc::new(scene(
        vec![with_mesh(node("a", vec![]), 0, None), with_mesh(node("b", vec![]), 0, Some(true))],
        vec![0, 1],
        1,
    ));
    let plan = plan_entities(&scene).unwrap();
    let transforms = plan.iter().map(|_| trs(0)).collect();
    let world = EntitiesWorldResource::new(scene, plan, transforms).compile(compiler()).unwrap();
    assert_eq!(world.node_to_entity_map.entries, HashMap::from([(0, 0), (1, 1)]));
    assert_eq!(words(&world.blob[0..4]), vec![2]);
}

#[test]
fn what_hangs_below_the_parts_of_a_vehicle_gets_no_entity() {
    let mut nodes = truck();
    // A light below the chassis, and a second vehicle behind the first.
    nodes[3].children = vec![9];
    nodes.push(node("lamp", vec![]));
    nodes[9].light = Some(thunder::scene::Light {
        kind: thunder::scene::LightKind::Directional,
        color: [1, 2, 3],
        intensity: 4,
    });
    nodes[0].children = vec![1, 2, 8, 10];
    nodes.push(car(node("Cart", vec![11])));
    nodes.push(with_mesh(node("Cart_Chassis", vec![]), 1, None));
    let plan = plan_entities(&scene(nodes, vec![0], 3)).unwrap();
    let nodes_planned: Vec<usize> = plan.iter().map(|r| r.node).collect();
    assert_eq!(nodes_planned, vec![1, 3, 4, 5, 6, 7, 8, 11]);
    // The part of the second vehicle is placed by the visit of that vehicle.
    assert_eq!(plan[7].visit, 10);
    assert!(plan[7].is_car_part);
}
