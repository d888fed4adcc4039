use thunder::mesh::{MeshSource, PrimitiveSource};
use thunder::scene::{
    extract_camera_from_scene, gather_cars, gather_materials, gather_meshes, gather_textures,
    insert_sorted, walk_nodes, walk_roots, Camera, GltfData, Light, LightKind, MaterialSource, Node,
    Perspective, Projection, Scene, TempestNodeExtension, Visit, DEFAULT_ASPECT_RATIO,
    DEFAULT_YFOV, DEFAULT_ZFAR, DEFAULT_ZNEAR, ONE,
};

fn identity() -> [u32; 16] {
    let one = 1.0f32.to_bits();
    [one, 0, 0, 0, 0, one, 0, 0, 0, 0, one, 0, 0, 0, 0, one]
}

fn node(name: &str, children: Vec<usize>) -> Node {
    Node {
        name: Some(name.to_string()),
        children,
        mesh: None,
        camera: None,
        light: None,
        extension: None,
        transform: identity(),
    }
}

fn primitive(material: Option<usize>) -> PrimitiveSource {
    PrimitiveSource {
        positions: Some(vec![]),
        normals: Some(vec![]),
        uvs: Some(vec![]),
        indices: Some(vec![]),
        material_index: material,
    }
}

fn material(base: Option<usize>, surface: Option<usize>) -> MaterialSource {
    MaterialSource {
        base_color_texture: base,
        metallic_roughness_texture: surface,
        base_color_factor: [ONE; 4],
        metallic_factor: ONE,
        roughness_factor: ONE,
    }
}

fn visits(walk: &[Visit]) -> Vec<(usize, usize)> {
    walk.iter().map(|v| (v.node, v.depth)).collect()
}

/// 0 ── 1 ── 3
///  └── 2        4 (a second root)
fn family() -> GltfData {
    GltfData {
        nodes: vec![
            node("root", vec![1, 2]),
            node("first", vec![3]),
            node("second", vec![]),
            node("grandchild", vec![]),
            node("other", vec![]),
        ],
        meshes: vec![],
        materials: vec![],
        scenes: vec![vec![0, 4]],
        image_count: 0,
    }
}

#[test]
fn a_list_stays_ascending_and_without_duplicates() {
    let mut list = vec![];
    for x in [5, 1, 3, 5, 0, 3, 9] {
        insert_sorted(&mut list, x);
    }
    assert_eq!(list, vec![0, 1, 3, 5, 9]);
}

#[test]
fn the_walk_goes_depth_first_and_in_the_order_of_the_children() {
    let gltf = family();
    let walk = walk_roots(&gltf, &vec![0, 4]).unwrap();
    assert_eq!(visits(&walk), vec![(0, 0), (1, 1), (3, 2), (2, 1), (4, 0)]);
}

#[test]
fn a_subtree_is_walked_from_its_node() {
    let gltf = family();
    let mut out = vec![];
    assert!(walk_nodes(&gltf, 1, 7, 5, &mut out));
    assert_eq!(visits(&out), vec![(1, 7), (3, 8)]);
}

#[test]
fn a_node_that_hangs_below_itself_ends_the_walk() {
    let mut gltf = family();
    gltf.nodes[3].children = vec![0];
    assert!(walk_roots(&gltf, &vec![0]).is_none());
    let camera = Camera::default_camera();
    assert!(gltf.validate());
    assert!(Scene::new(gltf, camera).is_none());
}

#[test]
fn a_node_that_is_shared_is_visited_once_for_each_parent() {
    let mut gltf = family();
    gltf.nodes[2].children = vec![3];
    let walk = walk_roots(&gltf, &vec![0]).unwrap();
    assert_eq!(visits(&walk), vec![(0, 0), (1, 1), (3, 2), (2, 1), (3, 2)]);
}

#[test]
fn a_scene_with_a_child_that_does_not_exist_is_not_sound() {
    let mut gltf = family();
    assert!(gltf.validate());
    gltf.nodes[2].children = vec![5];
    assert!(!gltf.validate());
}

#[test]
fn a_scene_with_a_mesh_that_does_not_exist_is_not_sound() {
    let mut gltf = family();
    gltf.nodes[2].mesh = Some(0);
    assert!(!gltf.validate());
    gltf.meshes.push(MeshSource { primitives: vec![primitive(Some(0))] });
    assert!(!gltf.validate());
    gltf.materials.push(material(None, None));
    assert!(gltf.validate());
}

#[test]
fn the_meshes_materials_and_textures_in_use_are_gathered_ascending() {
    let mut gltf = family();
    gltf.meshes = vec![
        MeshSource { primitives: vec![primitive(Some(2))] },
        MeshSource { primitives: vec![primitive(Some(9))] },
        MeshSource { primitives: vec![primitive(Some(1)), primitive(None), primitive(Some(2))] },
    ];
    gltf.materials = (0..10).map(|i| material(Some(20 - i), if i == 1 { Some(3) } else { None })).collect();
    gltf.nodes[3].mesh = Some(2);
    gltf.nodes[2].mesh = Some(0);
    gltf.nodes[4].mesh = Some(2);
    let walk = walk_roots(&gltf, &vec![0, 4]).unwrap();
    let meshes = gather_meshes(&gltf, &walk);
    assert_eq!(meshes, vec![0, 2]);
    let materials = gather_materials(&gltf, &meshes);
    assert_eq!(materials, vec![1, 2]);
    assert_eq!(gather_textures(&gltf, &materials), vec![3, 18, 19]);
}

#[test]
fn only_nodes_that_are_marked_are_vehicles() {
    let mut gltf = family();
    gltf.nodes[1].extension = Some(TempestNodeExtension { physics_body: None, is_car: Some(true) });
    gltf.nodes[2].extension = Some(TempestNodeExtension { physics_body: None, is_car: Some(false) });
    gltf.nodes[3].extension = Some(TempestNodeExtension { physics_body: None, is_car: None });
    let walk = walk_roots(&gltf, &vec![0, 4]).unwrap();
    assert_eq!(gather_cars(&gltf, &walk), vec![1]);
    assert!(gltf.is_car(1));
    assert!(!gltf.is_car(2));
    assert!(!gltf.is_car(3));
    assert!(!gltf.is_car(0));
    assert_eq!(gltf.tempest_extension(1).is_car, Some(true));
    assert_eq!(gltf.tempest_extension(2).is_car, Some(false));
    assert_eq!(gltf.tempest_extension(3).is_car, None);
    assert!(gltf.tempest_extension(3).physics_body.is_none());
}

#[test]
fn a_scene_knows_what_is_in_use() {
    let mut gltf = family();
    gltf.meshes = vec![MeshSource { primitives: vec![primitive(Some(0))] }];
    gltf.materials = vec![material(Some(4), None)];
    gltf.image_count = 5;
    gltf.nodes[4].mesh = Some(0);
    let scene = Scene::new(gltf, Camera::default_camera()).unwrap();
    assert_eq!(scene.root_nodes, vec![0, 4]);
    assert_eq!(scene.walk.len(), 5);
    assert_eq!(scene.meshes, vec![0]);
    assert_eq!(scene.materials, vec![0]);
    assert_eq!(scene.textures, vec![4]);
    assert!(scene.car_node_indices.is_empty());
}

#[test]
fn a_node_without_a_name_is_called_unnamed() {
    let mut gltf = family();
    gltf.nodes[2].name = None;
    assert_eq!(gltf.node_name(2), "Unnamed node");
    assert_eq!(gltf.node_name(1), "first");
}

#[test]
fn the_first_perspective_camera_of_the_walk_is_the_primary_camera() {
    let mut gltf = family();
    let wide = Perspective { yfov: 7, aspect_ratio: None, znear: 8, zfar: None };
    let narrow = Perspective { yfov: 1, aspect_ratio: Some(2), znear: 3, zfar: Some(4) };
    gltf.nodes[1].camera = Some(Projection::Orthographic);
    gltf.nodes[2].camera = Some(Projection::Perspective(wide));
    gltf.nodes[3].camera = Some(Projection::Perspective(narrow));
    let walk = walk_roots(&gltf, &vec![0, 4]).unwrap();
    let (place, found) = extract_camera_from_scene(&gltf, &walk).unwrap();
    assert_eq!(place, 2);
    assert_eq!(walk[place].node, 3);
    assert_eq!(found.yfov, 1);
}

#[test]
fn a_scene_without_camera_has_none() {
    let gltf = family();
    let walk = walk_roots(&gltf, &vec![0, 4]).unwrap();
    assert!(extract_camera_from_scene(&gltf, &walk).is_none());
}

#[test]
fn the_default_camera_looks_nowhere() {
    let camera = Camera::default_camera();
    assert_eq!(f32::from_bits(camera.yfov), 1.0);
    assert_eq!(f32::from_bits(camera.znear), 0.1);
    assert_eq!(f32::from_bits(camera.zfar), 1000.0);
    assert_eq!(f32::from_bits(camera.aspect_ratio), 16.0 / 9.0);
    assert_eq!(camera.position, [0, 0, 0]);
    assert_eq!(camera.forward, [0, 0, 0]);
    assert_eq!(camera.up, [0, 0, 0]);
    assert_eq!(DEFAULT_YFOV, 1.0f32.to_bits());
    assert_eq!(DEFAULT_ZNEAR, 0.1f32.to_bits());
    assert_eq!(DEFAULT_ZFAR, 1000.0f32.to_bits());
    assert_eq!(DEFAULT_ASPECT_RATIO, (16.0f32 / 9.0).to_bits());
}

#[test]
fn a_camera_without_far_plane_or_aspect_ratio_gets_the_defaults() {
    let open = Perspective { yfov: 5, aspect_ratio: None, znear: 6, zfar: None };
    let camera = Camera::from_perspective(&open, [1, 2, 3], [4, 5, 6], [7, 8, 9]);
    assert_eq!(camera.yfov, 5);
    assert_eq!(camera.znear, 6);
    assert_eq!(camera.zfar, DEFAULT_ZFAR);
    assert_eq!(camera.aspect_ratio, DEFAULT_ASPECT_RATIO);
    assert_eq!(camera.to_words(), vec![5, 6, DEFAULT_ZFAR, DEFAULT_ASPECT_RATIO, 1, 2, 3, 4, 5, 6, 7, 8, 9]);
    let closed = Perspective { yfov: 5, aspect_ratio: Some(10), znear: 6, zfar: Some(11) };
    let camera = Camera::from_perspective(&closed, [0; 3], [0; 3], [0; 3]);
    assert_eq!(camera.zfar, 11);
    assert_eq!(camera.aspect_ratio, 10);
}

#[test]
fn the_scene_hands_out_what_it_holds() {
    let mut gltf = family();
    gltf.nodes[1].mesh = Some(0);
    gltf.nodes[1].light = Some(Light { kind: LightKind::Point, color: [1, 2, 3], intensity: 4 });
    gltf.meshes = vec![MeshSource { primitives: vec![primitive(Some(0)), primitive(None)] }];
    gltf.materials = vec![material(None, Some(1))];
    assert_eq!(gltf.node_mesh_index(1), Some(0));
    assert_eq!(gltf.node_mesh_index(0), None);
    assert_eq!(gltf.node_transform(1), identity());
    assert_eq!(gltf.light(1).unwrap().intensity, 4);
    assert!(gltf.light(0).is_none());
    assert_eq!(gltf.mesh_primitive_count(0), 2);
    assert_eq!(gltf.mesh_material_index(0, 0), Some(0));
    assert_eq!(gltf.mesh_material_index(0, 1), None);
    assert_eq!(gltf.material(0).metallic_roughness_texture, Some(1));
    assert_eq!(gltf.gather_root_node_indices(0), vec![0, 4]);
    assert_eq!(gltf.node_children(0), &vec![1, 2]);
    assert!(gltf.node_children(4).is_empty());
}

#[test]
fn the_streams_of_a_primitive_are_handed_out_as_they_are() {
    let mut gltf = family();
    gltf.meshes = vec![MeshSource {
        primitives: vec![
            PrimitiveSource {
                positions: Some(vec![[1, 2, 3], [4, 5, 6]]),
                normals: Some(vec![[7, 8, 9]]),
                uvs: Some(vec![[10, 11]]),
                indices: Some(vec![0, 1, 0]),
                material_index: None,
            },
            PrimitiveSource {
                positions: None,
                normals: None,
                uvs: None,
                indices: None,
                material_index: None,
            },
        ],
    }];
    assert_eq!(gltf.mesh_positions(0, 0), Some(&vec![[1, 2, 3], [4, 5, 6]]));
    assert_eq!(gltf.mesh_normals(0, 0), Some(&vec![[7, 8, 9]]));
    assert_eq!(gltf.mesh_uvs(0, 0), Some(&vec![[10, 11]]));
    assert_eq!(gltf.mesh_indices(0, 0), Some(&vec![0, 1, 0]));
    assert_eq!(gltf.mesh_positions(0, 1), None);
    assert_eq!(gltf.mesh_normals(0, 1), None);
    assert_eq!(gltf.mesh_uvs(0, 1), None);
    assert_eq!(gltf.mesh_indices(0, 1), None);
}
