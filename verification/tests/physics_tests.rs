use std::sync::Arc;
use thunder::compiler::{AsyncCompiler, CompilerOptions};
use thunder::entities_world::NodeToEntityMap;
use thunder::mesh::{MeshData, MeshSource, PrimitiveMeshData, PrimitiveSource};
use thunder::meshlet::{Meshlet, VertexLayout};
use thunder::physics_world::{
    convex_mesh_source, plan_physics_world, position_of, triangle_mesh_source, PhysicsCommand,
    PhysicsError, PhysicsShapeFilter, PhysicsWorldResource,
};
use thunder::resources::Resource;
use thunder::scene::{
    Camera, CollisionShape, CollisionShapeKind, GltfData, Node, PhysicsBody, Scene,
    TempestNodeExtension,
};

fn compiler() -> Arc<AsyncCompiler> {
    Arc::new(AsyncCompiler::new(CompilerOptions {
        output_folder: String::new(),
        input_folder: String::new(),
    }))
}

fn node(name: &str, children: Vec<usize>) -> Node {
    Node {
        name: Some(name.to_string()),
        children,
        mesh: None,
        camera: None,
        light: None,
        extension: None,
        transform: [0; 16],
    }
}

fn body(mut n: Node, mesh: usize, kind: CollisionShapeKind, dynamic: bool) -> Node {
    n.mesh = Some(mesh);
    n.extension = Some(TempestNodeExtension {
        physics_body: Some(PhysicsBody {
            dynamic,
            collision_shape: CollisionShape { kind, radius: Some(2.5f32.to_bits()) },
        }),
        is_car: None,
    });
    n
}

fn part(name: &str, mesh: usize) -> Node {
    let mut n = node(name, vec![]);
    n.mesh = Some(mesh);
    n
}

fn car(mut n: Node) -> Node {
    n.extension = Some(TempestNodeExtension { physics_body: None, is_car: Some(true) });
    n
}

fn empty_mesh() -> MeshSource {
    MeshSource {
        primitives: vec![PrimitiveSource {
            positions: Some(vec![]),
            normals: Some(vec![]),
            uvs: Some(vec![]),
            indices: Some(vec![]),
            material_index: None,
        }],
    }
}

fn scene(nodes: Vec<Node>, meshes: usize) -> Scene {
    let roots = vec![0];
    let gltf = GltfData {
        nodes,
        meshes: (0..meshes).map(|_| empty_mesh()).collect(),
        materials: vec![],
        scenes: vec![roots],
        image_count: 0,
    };
    assert!(gltf.validate());
    Scene::new(gltf, Camera::default_camera()).unwrap()
}

fn map(entries: &[(usize, usize)]) -> NodeToEntityMap {
    let mut map = NodeToEntityMap::new();
    for (node, id) in entries {
        map.insert(*node, *id);
    }
    map
}

fn vertex(seed: u32) -> VertexLayout {
    VertexLayout {
        position: [seed, seed + 1, seed + 2],
        normal: [seed + 3, seed + 4, seed + 5],
        uv: [seed + 6, seed + 7],
    }
}

/// A primitive of one triangle whose proxy names the given vertices.
fn triangle(seed: u32, proxy: Vec<u32>) -> PrimitiveMeshData {
    PrimitiveMeshData {
        meshlets: vec![Meshlet::new(0, 3, 0, 1)],
        vertices: vec![vertex(seed), vertex(seed + 10), vertex(seed + 20)],
        meshlet_indices: vec![0, 1, 2],
        whole_mesh_indices: vec![0, 1, 2],
        simplified_indices: proxy,
        material_index: 0,
    }
}

#[test]
fn a_mesh_is_found_among_the_meshes_in_use() {
    assert_eq!(position_of(&vec![2, 5, 9], 5), 1);
    assert_eq!(position_of(&vec![2, 5, 9], 2), 0);
    assert_eq!(position_of(&vec![2, 5, 9], 4), 3);
    assert_eq!(position_of(&vec![], 4), 0);
}

#[test]
fn each_collision_shape_gets_its_actor() {
    let scene = scene(
        vec![
            node("root", vec![1, 2, 3, 4]),
            body(node("ground", vec![]), 2, CollisionShapeKind::Mesh, false),
            body(node("ball", vec![]), 0, CollisionShapeKind::Sphere, true),
            body(node("rock", vec![]), 1, CollisionShapeKind::Convex, true),
            part("scenery", 1),
        ],
        3,
    );
    let mut scene = scene;
    scene.gltf.nodes[4].extension = Some(TempestNodeExtension { physics_body: None, is_car: None });
    assert_eq!(scene.meshes, vec![0, 1, 2]);
    let plan = plan_physics_world(&scene, &map(&[(1, 11), (2, 22), (3, 33)])).unwrap();
    assert_eq!(
        plan,
        vec![
            PhysicsCommand::TriangleMesh {
                visit: 1,
                node: 1,
                mesh: 2,
                entity: 11,
                filter: PhysicsShapeFilter::DrivableSurface,
            },
            PhysicsCommand::Sphere {
                visit: 2,
                node: 2,
                radius: Some(2.5f32.to_bits()),
                dynamic: true,
                entity: 22,
                filter: PhysicsShapeFilter::NonDrivableSurface,
            },
            PhysicsCommand::Convex {
                visit: 3,
                node: 3,
                mesh: 1,
                dynamic: true,
                entity: 33,
                filter: PhysicsShapeFilter::DrivableSurface,
            },
        ]
    );
}

#[test]
fn the_place_of_a_mesh_is_counted_among_the_meshes_in_use() {
    // Mesh 0 is not in use, so mesh 2 stands at place 1.
    let scene = scene(
        vec![
            node("root", vec![1, 2]),
            body(node("a", vec![]), 2, CollisionShapeKind::Convex, false),
            body(node("b", vec![]), 1, CollisionShapeKind::Convex, false),
        ],
        3,
    );
    assert_eq!(scene.meshes, vec![1, 2]);
    let plan = plan_physics_world(&scene, &map(&[(1, 0), (2, 1)])).unwrap();
    assert!(matches!(plan[0], PhysicsCommand::Convex { mesh: 1, .. }));
    assert!(matches!(plan[1], PhysicsCommand::Convex { mesh: 0, .. }));
}

#[test]
fn a_collision_shape_that_is_unknown_is_refused() {
    let scene = scene(vec![body(node("odd", vec![]), 0, CollisionShapeKind::Invalid, false)], 1);
    let failed = plan_physics_world(&scene, &map(&[(0, 0)]));
    assert_eq!(failed, Err(PhysicsError::UnknownCollisionShape { node: 0 }));
}

#[test]
fn a_triangle_mesh_cannot_move() {
    let scene = scene(vec![body(node("odd", vec![]), 0, CollisionShapeKind::Mesh, true)], 1);
    assert_eq!(
        plan_physics_world(&scene, &map(&[(0, 0)])),
        Err(PhysicsError::DynamicMesh { node: 0 })
    );
}

#[test]
fn an_actor_needs_the_entity_of_its_node() {
    for kind in [CollisionShapeKind::Mesh, CollisionShapeKind::Sphere, CollisionShapeKind::Convex] {
        let scene = scene(vec![body(node("lost", vec![]), 0, kind, false)], 1);
        assert_eq!(
            plan_physics_world(&scene, &map(&[(1, 0)])),
            Err(PhysicsError::MissingEntity { node: 0 })
        );
    }
}

#[test]
fn a_collider_needs_the_annotations_of_its_node() {
    let scene = scene(vec![part("bare", 0)], 1);
    assert_eq!(
        plan_physics_world(&scene, &map(&[])),
        Err(PhysicsError::MissingExtension { node: 0 })
    );
}

#[test]
fn a_node_without_mesh_or_without_body_gets_no_actor() {
    let mut quiet = part("quiet", 0);
    quiet.extension = Some(TempestNodeExtension { physics_body: None, is_car: None });
    let scene = scene(vec![node("root", vec![1]), quiet], 1);
    assert_eq!(plan_physics_world(&scene, &map(&[])), Ok(vec![]));
}

fn truck() -> Vec<Node> {
    vec![
        node("root", vec![1, 7]),
        car(node("Truck", vec![2, 3, 4, 5, 6])),
        part("Truck_FrontLeftWheel", 1),
        part("Truck_FrontRightWheel", 1),
        part("Truck_RearLeftWheel", 1),
        part("Truck_RearRightWheel", 1),
        part("Truck_Chassis", 0),
        body(node("after", vec![]), 0, CollisionShapeKind::Sphere, false),
    ]
}

#[test]
fn a_vehicle_is_built_from_its_five_parts_and_the_plan_goes_on_behind_it() {
    let plan = plan_physics_world(&scene(truck(), 2), &map(&[(7, 3)])).unwrap();
    assert_eq!(plan.len(), 7);
    assert_eq!(
        plan[6],
        PhysicsCommand::Sphere {
            visit: 7,
            node: 7,
            radius: Some(2.5f32.to_bits()),
            dynamic: false,
            entity: 3,
            filter: PhysicsShapeFilter::NonDrivableSurface,
        }
    );
    // The node behind the vehicle needs its entity like any other.
    assert_eq!(
        plan_physics_world(&scene(truck(), 2), &map(&[])),
        Err(PhysicsError::MissingEntity { node: 7 })
    );
    for (i, command) in plan[0..5].iter().enumerate() {
        let mesh = if i == 4 { 0 } else { 1 };
        assert_eq!(
            *command,
            PhysicsCommand::CarPart { visit: 1, car: 1, child: i + 2, part: i as u32, mesh }
        );
    }
    assert_eq!(plan[5], PhysicsCommand::Car { visit: 1, node: 1 });
}

#[test]
fn a_vehicle_that_lacks_a_part_is_refused() {
    let mut nodes = truck();
    nodes[1].children = vec![2, 3, 4, 6];
    assert_eq!(
        plan_physics_world(&scene(nodes, 2), &map(&[])),
        Err(PhysicsError::IncompleteCar { node: 1 })
    );
    let mut nodes = truck();
    nodes[5].name = Some("Truck_RearLeftWheel".to_string());
    assert_eq!(
        plan_physics_world(&scene(nodes, 2), &map(&[])),
        Err(PhysicsError::IncompleteCar { node: 1 })
    );
}

#[test]
fn a_vehicle_with_a_child_that_is_no_part_is_refused() {
    let mut nodes = truck();
    nodes[3].name = Some("Truck_Horn".to_string());
    assert_eq!(
        plan_physics_world(&scene(nodes, 2), &map(&[])),
        Err(PhysicsError::UnknownCarPart { node: 3 })
    );
    let mut nodes = truck();
    nodes[6].mesh = None;
    assert_eq!(
        plan_physics_world(&scene(nodes, 2), &map(&[])),
        Err(PhysicsError::MissingMesh { node: 6 })
    );
}

#[test]
fn the_triangle_mesh_of_a_mesh_joins_its_primitives() {
    let mesh = MeshData { primitive_meshes: vec![triangle(100, vec![]), triangle(200, vec![])] };
    let source = triangle_mesh_source(&mesh).unwrap();
    assert_eq!(source.vertex_count, 6);
    assert_eq!(source.vertices.len(), 48);
    assert_eq!(&source.vertices[0..8], &[100, 101, 102, 103, 104, 105, 106, 107]);
    assert_eq!(&source.vertices[24..27], &[200, 201, 202]);
    assert_eq!(source.indices, vec![0, 1, 2, 3, 4, 5]);
}

#[test]
fn the_point_cloud_of_a_mesh_holds_the_positions_of_its_proxies() {
    let mesh = MeshData {
        primitive_meshes: vec![triangle(100, vec![2, 0, 1]), triangle(200, vec![1, 1, 1])],
    };
    let source = convex_mesh_source(&mesh).unwrap();
    assert_eq!(source.point_count, 6);
    assert_eq!(
        source.points,
        vec![120, 121, 122, 100, 101, 102, 110, 111, 112, 210, 211, 212, 210, 211, 212, 210, 211, 212]
    );
}

#[test]
fn a_mesh_without_primitives_has_no_geometry() {
    let mesh = MeshData { primitive_meshes: vec![] };
    let source = triangle_mesh_source(&mesh).unwrap();
    assert!(source.vertices.is_empty() && source.indices.is_empty() && source.vertex_count == 0);
    let source = convex_mesh_source(&mesh).unwrap();
    assert!(source.points.is_empty() && source.point_count == 0);
}

#[test]
fn the_physics_resource_plans_the_world_of_its_scene() {
    let scene = Arc::new(scene(
        vec![body(node("ball", vec![]), 0, CollisionShapeKind::Sphere, false)],
        1,
    ));
    let resource = PhysicsWorldResource::new(scene, Arc::new(vec![]), map(&[(0, 5)]));
    let plan = resource.compile(compiler()).unwrap();
    assert_eq!(plan.len(), 1);
    assert!(matches!(plan[0], PhysicsCommand::Sphere { entity: 5, dynamic: false, .. }));
}

#[test]
fn a_surface_filter_is_stored_as_one_word() {
    assert_eq!(PhysicsShapeFilter::DrivableSurface.word(), 0xffff_0000);
    assert_eq!(PhysicsShapeFilter::NonDrivableSurface.word(), 0x0000_ffff);
}
