//! The physics-world builder: what the physics engine is asked to cook and to
//! put into the world of a level.
//!
//! The physics engine itself is not part of this library. The builder decides
//! what it is given: it follows the walk through the scene and asks for one
//! actor for each node with a mesh and a physics body, and for the parts and
//! the body of each vehicle; what hangs below a vehicle are its parts and
//! nothing else. Every actor is bound to the stable id of the entity of its
//! node, which is why the physics world can only be built once the entity
//! world is.
//!
//! The geometry that the engine cooks is put together here as well: the
//! triangle mesh of a static collider from the whole-mesh triangle lists of
//! all primitives of a mesh, the point cloud of a convex collider from their
//! collision proxies.

use std::sync::Arc;
use vstd::prelude::*;
use crate::compiler::AsyncCompiler;
use crate::entities_world::{car_part_of, find_car_part, NodeToEntityMap, CAR_PART_COUNT};
use crate::geometry_builder::vertex_sum;
use crate::mesh::{lemma_whole_mesh_in_range, MeshData, PrimitiveMeshData};
use crate::mesh_optimizer::indices_in_range;
use crate::meshlet::VertexLayout;
use crate::resources::Resource;
use crate::scene::{
    lemma_skip_deeper, next_after_subtree, skip_subtree, CollisionShapeKind, Scene,
};

verus! {

/// What a collider can be driven on.
#[derive(Clone, Copy, Debug, PartialEq, Eq, Structural)]
pub enum PhysicsShapeFilter {
    DrivableSurface,
    NonDrivableSurface,
}

/// The filter word of a surface that vehicles drive on.
pub const DRIVABLE_SURFACE: u32 = 0xffff_0000;

/// The filter word of a surface that vehicles do not drive on.
pub const NON_DRIVABLE_SURFACE: u32 = 0x0000_ffff;

impl PhysicsShapeFilter {
    /// The word by which the filter is stored with a shape.
    pub open spec fn spec_word(&self) -> u32 {
        match self {
            PhysicsShapeFilter::DrivableSurface => DRIVABLE_SURFACE,
            PhysicsShapeFilter::NonDrivableSurface => NON_DRIVABLE_SURFACE,
        }
    }

    #[verifier::when_used_as_spec(spec_word)]
    pub fn word(&self) -> (w: u32)
        ensures
            w == self.spec_word(),
    {
        match self {
            PhysicsShapeFilter::DrivableSurface => DRIVABLE_SURFACE,
            PhysicsShapeFilter::NonDrivableSurface => NON_DRIVABLE_SURFACE,
        }
    }
}

/// Why the physics world of a scene could not be planned.
#[derive(Clone, Copy, Debug, PartialEq, Eq, Structural)]
pub enum PhysicsError {
    /// A node has a mesh but no annotations.
    MissingExtension { node: usize },
    /// The physics body of a node names a collision shape that is unknown.
    UnknownCollisionShape { node: usize },
    /// A node asks for a triangle mesh that moves.
    DynamicMesh { node: usize },
    /// A node with a physics body has no entity.
    MissingEntity { node: usize },
    /// The mesh of a node is not among the extracted meshes.
    MissingMeshData { node: usize },
    /// A child of a vehicle is not named after one of its parts.
    UnknownCarPart { node: usize },
    /// A child of a vehicle has no mesh.
    MissingMesh { node: usize },
    /// A vehicle lacks one of its five parts.
    IncompleteCar { node: usize },
}

/// One thing that the physics engine is asked to do. `visit` is the place in
/// the walk of the visit whose world transform places the actor; `mesh` is
/// the place of a mesh among the extracted meshes of the scene.
#[derive(Clone, Copy, Debug, PartialEq, Eq, Structural)]
pub enum PhysicsCommand {
    /// A static actor with the triangle mesh of a mesh as its collider.
    TriangleMesh { visit: usize, node: usize, mesh: usize, entity: usize, filter: PhysicsShapeFilter },
    /// An actor with a sphere as its collider; without a radius the sphere
    /// has radius one.
    Sphere {
        visit: usize,
        node: usize,
        radius: Option<u32>,
        dynamic: bool,
        entity: usize,
        filter: PhysicsShapeFilter,
    },
    /// An actor with the convex hull of the collision proxy of a mesh as its
    /// collider.
    Convex {
        visit: usize,
        node: usize,
        mesh: usize,
        dynamic: bool,
        entity: usize,
        filter: PhysicsShapeFilter,
    },
    /// One part of a vehicle: the convex hull of the mesh of a child of the
    /// vehicle node, scaled as the vehicle is.
    CarPart { visit: usize, car: usize, child: usize, part: u32, mesh: usize },
    /// The vehicle whose parts were given before.
    Car { visit: usize, node: usize },
}

/// The place of the first item, from `from` on, that equals `x`; the length
/// of the list if there is none.
pub open spec fn position_from(list: Seq<usize>, x: usize, from: int) -> int
    decreases list.len() - from,
{
    if from < 0 || from >= list.len() {
        list.len() as int
    } else if list[from] == x {
        from
    } else {
        position_from(list, x, from + 1)
    }
}

/// Finds the place of a mesh among the meshes in use.
pub fn position_of(list: &Vec<usize>, x: usize) -> (place: usize)
    ensures
        place == position_from(list@, x, 0),
        place <= list@.len(),
{
    let mut i: usize = 0;
    while i < list.len()
        invariant
            i <= list@.len(),
            position_from(list@, x, 0) == position_from(list@, x, i as int),
        decreases list@.len() - i,
    {
        if list[i] == x {
            return i;
        }
        i = i + 1;
    }
    i
}

/// What is asked for a node that is no vehicle: nothing for a node without
/// a mesh or without a physics body, else one actor, whose collider is the
/// shape that the physics body names.
pub open spec fn node_command(scene: &Scene, map: &NodeToEntityMap, visit: int, node: int) -> Result<
    Option<PhysicsCommand>,
    PhysicsError,
> {
    let n = scene.gltf.nodes@[node];
    match n.mesh {
        None => Ok(None),
        Some(mesh) => match n.extension {
            None => Err(PhysicsError::MissingExtension { node: node as usize }),
            Some(extension) => match extension.physics_body {
                None => Ok(None),
                Some(body) => {
                    let place = position_from(scene.meshes@, mesh, 0);
                    let entity = map.spec_get(node as usize);
                    match body.collision_shape.kind {
                        CollisionShapeKind::Mesh => if place >= scene.meshes@.len() {
                            Err(PhysicsError::MissingMeshData { node: node as usize })
                        } else if body.dynamic {
                            Err(PhysicsError::DynamicMesh { node: node as usize })
                        } else if entity is None {
                            Err(PhysicsError::MissingEntity { node: node as usize })
                        } else {
                            Ok(
                                Some(
                                    PhysicsCommand::TriangleMesh {
                                        visit: visit as usize,
                                        node: node as usize,
                                        mesh: place as usize,
                                        entity: entity->0,
                                        filter: PhysicsShapeFilter::DrivableSurface,
                                    },
                                ),
                            )
                        },
                        CollisionShapeKind::Sphere => if entity is None {
                            Err(PhysicsError::MissingEntity { node: node as usize })
                        } else {
                            Ok(
                                Some(
                                    PhysicsCommand::Sphere {
                                        visit: visit as usize,
                                        node: node as usize,
                                        radius: body.collision_shape.radius,
                                        dynamic: body.dynamic,
                                        entity: entity->0,
                                        filter: PhysicsShapeFilter::NonDrivableSurface,
                                    },
                                ),
                            )
                        },
                        CollisionShapeKind::Convex => if place >= scene.meshes@.len() {
                            Err(PhysicsError::MissingMeshData { node: node as usize })
                        } else if entity is None {
                            Err(PhysicsError::MissingEntity { node: node as usize })
                        } else {
                            Ok(
                                Some(
                                    PhysicsCommand::Convex {
                                        visit: visit as usize,
                                        node: node as usize,
                                        mesh: place as usize,
                                        dynamic: body.dynamic,
                                        entity: entity->0,
                                        filter: PhysicsShapeFilter::DrivableSurface,
                                    },
                                ),
                            )
                        },
                        CollisionShapeKind::Invalid => Err(
                            PhysicsError::UnknownCollisionShape { node: node as usize },
                        ),
                    }
                },
            },
        },
    }
}

/// What is asked for a child of a vehicle.
pub open spec fn car_part_command(scene: &Scene, visit: int, car: int, child: int) -> Result<
    PhysicsCommand,
    PhysicsError,
> {
    match car_part_of(scene.gltf.spec_node_name(car), scene.gltf.spec_node_name(child)) {
        None => Err(PhysicsError::UnknownCarPart { node: child as usize }),
        Some(part) => match scene.gltf.nodes@[child].mesh {
            None => Err(PhysicsError::MissingMesh { node: child as usize }),
            Some(mesh) => {
                let place = position_from(scene.meshes@, mesh, 0);
                if place >= scene.meshes@.len() {
                    Err(PhysicsError::MissingMeshData { node: child as usize })
                } else {
                    Ok(
                        PhysicsCommand::CarPart {
                            visit: visit as usize,
                            car: car as usize,
                            child: child as usize,
                            part,
                            mesh: place as usize,
                        },
                    )
                }
            },
        },
    }
}

/// What is asked for the first `k` children of a vehicle.
pub open spec fn car_part_commands(scene: &Scene, visit: int, car: int, k: nat) -> Result<
    Seq<PhysicsCommand>,
    PhysicsError,
>
    decreases k,
{
    if k == 0 || k > scene.gltf.nodes@[car].children@.len() {
        Ok(Seq::empty())
    } else {
        match car_part_commands(scene, visit, car, (k - 1) as nat) {
            Err(e) => Err(e),
            Ok(before) => match car_part_command(
                scene,
                visit,
                car,
                scene.gltf.nodes@[car].children@[k - 1] as int,
            ) {
                Err(e) => Err(e),
                Ok(command) => Ok(before.push(command)),
            },
        }
    }
}

/// One of the commands is for the given part of a vehicle.
pub open spec fn has_part(commands: Seq<PhysicsCommand>, part: u32) -> bool {
    exists|i: int|
        0 <= i < commands.len() && (#[trigger] commands[i] matches PhysicsCommand::CarPart {
            part: p,
            ..
        } && p == part)
}

/// The commands are for all five parts of a vehicle.
pub open spec fn has_all_parts(commands: Seq<PhysicsCommand>) -> bool {
    forall|part: u32| part < CAR_PART_COUNT ==> has_part(commands, part)
}

/// What is asked for a vehicle: its parts, one for each child, and then the
/// vehicle itself, which needs all five.
pub open spec fn car_commands(scene: &Scene, visit: int, car: int) -> Result<
    Seq<PhysicsCommand>,
    PhysicsError,
> {
    match car_part_commands(scene, visit, car, scene.gltf.nodes@[car].children@.len()) {
        Err(e) => Err(e),
        Ok(parts) => if has_all_parts(parts) {
            Ok(parts.push(PhysicsCommand::Car { visit: visit as usize, node: car as usize }))
        } else {
            Err(PhysicsError::IncompleteCar { node: car as usize })
        },
    }
}

/// Commands put in front of a plan that may have failed.
pub open spec fn commands_after(
    first: Seq<PhysicsCommand>,
    rest: Result<Seq<PhysicsCommand>, PhysicsError>,
) -> Result<Seq<PhysicsCommand>, PhysicsError> {
    match rest {
        Err(e) => Err(e),
        Ok(commands) => Ok(first + commands),
    }
}

/// The plan from place `i` of the walk on: what is asked for the nodes in
/// the order of the walk. A vehicle is built of its parts, which are its
/// children; the plan then goes on behind the subtree of the vehicle. The
/// first node that cannot be planned fails the plan.
pub open spec fn physics_planned_from(scene: &Scene, map: &NodeToEntityMap, i: int) -> Result<
    Seq<PhysicsCommand>,
    PhysicsError,
>
    decreases scene.walk@.len() - i,
    via physics_planned_from_decreases
{
    if i < 0 || i >= scene.walk@.len() {
        Ok(Seq::empty())
    } else {
        let node = scene.walk@[i].node as int;
        if scene.gltf.spec_is_car(node) {
            match car_commands(scene, i, node) {
                Err(e) => Err(e),
                Ok(commands) => commands_after(
                    commands,
                    physics_planned_from(scene, map, next_after_subtree(scene.walk@, i)),
                ),
            }
        } else {
            match node_command(scene, map, i, node) {
                Err(e) => Err(e),
                Ok(Some(command)) => commands_after(
                    seq![command],
                    physics_planned_from(scene, map, i + 1),
                ),
                Ok(None) => physics_planned_from(scene, map, i + 1),
            }
        }
    }
}

#[via_fn]
proof fn physics_planned_from_decreases(scene: &Scene, map: &NodeToEntityMap, i: int) {
    if 0 <= i < scene.walk@.len() {
        lemma_skip_deeper(scene.walk@, scene.walk@[i].depth, i + 1);
    }
}

/// The plan of the physics world of a scene.
pub open spec fn physics_planned(scene: &Scene, map: &NodeToEntityMap) -> Result<
    Seq<PhysicsCommand>,
    PhysicsError,
> {
    physics_planned_from(scene, map, 0)
}

fn plan_node(scene: &Scene, map: &NodeToEntityMap, visit: usize, node: usize) -> (r: Result<
    Option<PhysicsCommand>,
    PhysicsError,
>)
    requires
        node < scene.gltf.nodes@.len(),
    ensures
        r == node_command(scene, map, visit as int, node as int),
{
    let n = &scene.gltf.nodes[node];
    let mesh = match n.mesh {
        Some(mesh) => mesh,
        None => {
            return Ok(None);
        },
    };
    let extension = match n.extension {
        Some(extension) => extension,
        None => {
            return Err(PhysicsError::MissingExtension { node });
        },
    };
    let body = match extension.physics_body {
        Some(body) => body,
        None => {
            return Ok(None);
        },
    };
    let place = position_of(&scene.meshes, mesh);
    let entity = map.get(node);
    match body.collision_shape.kind {
        CollisionShapeKind::Mesh => {
            if place >= scene.meshes.len() {
                return Err(PhysicsError::MissingMeshData { node });
            }
            if body.dynamic {
                return Err(PhysicsError::DynamicMesh { node });
            }
            match entity {
                None => Err(PhysicsError::MissingEntity { node }),
                Some(entity) => Ok(
                    Some(
                        PhysicsCommand::TriangleMesh {
                            visit,
                            node,
                            mesh: place,
                            entity,
                            filter: PhysicsShapeFilter::DrivableSurface,
                        },
                    ),
                ),
            }
        },
        CollisionShapeKind::Sphere => match entity {
            None => Err(PhysicsError::MissingEntity { node }),
            Some(entity) => Ok(
                Some(
                    PhysicsCommand::Sphere {
                        visit,
                        node,
                        radius: body.collision_shape.radius,
                        dynamic: body.dynamic,
                        entity,
                        filter: PhysicsShapeFilter::NonDrivableSurface,
                    },
                ),
            ),
        },
        CollisionShapeKind::Convex => {
            if place >= scene.meshes.len() {
                return Err(PhysicsError::MissingMeshData { node });
            }
            match entity {
                None => Err(PhysicsError::MissingEntity { node }),
                Some(entity) => Ok(
                    Some(
                        PhysicsCommand::Convex {
                            visit,
                            node,
                            mesh: place,
                            dynamic: body.dynamic,
                            entity,
                            filter: PhysicsShapeFilter::DrivableSurface,
                        },
                    ),
                ),
            }
        },
        CollisionShapeKind::Invalid => Err(PhysicsError::UnknownCollisionShape { node }),
    }
}

/// Once the plan for some children of a vehicle has failed, the plan for
/// all of them fails the same way.
pub proof fn lemma_car_parts_fail(scene: &Scene, visit: int, car: int, k: nat)
    requires
        k <= scene.gltf.nodes@[car].children@.len(),
        car_part_commands(scene, visit, car, k) is Err,
    ensures
        car_part_commands(scene, visit, car, scene.gltf.nodes@[car].children@.len())
            == car_part_commands(scene, visit, car, k),
    decreases scene.gltf.nodes@[car].children@.len() - k,
{
    if k < scene.gltf.nodes@[car].children@.len() {
        lemma_car_parts_fail(scene, visit, car, k + 1);
    }
}

fn check_part(commands: &Vec<PhysicsCommand>, from: usize, part: u32) -> (b: bool)
    requires
        from <= commands@.len(),
    ensures
        b == has_part(commands@.subrange(from as int, commands@.len() as int), part),
{
    let ghost parts = commands@.subrange(from as int, commands@.len() as int);
    let mut i: usize = from;
    while i < commands.len()
        invariant
            from <= i <= commands@.len(),
            parts == commands@.subrange(from as int, commands@.len() as int),
            forall|j: int|
                0 <= j < i - from ==> !(#[trigger] parts[j] matches PhysicsCommand::CarPart {
                    part: p,
                    ..
                } && p == part),
        decreases commands@.len() - i,
    {
        assert(parts[i - from] == commands@[i as int]);
        match commands[i] {
            PhysicsCommand::CarPart { part: p, .. } => {
                if p == part {
                    return true;
                }
            },
            _ => {},
        }
        i = i + 1;
    }
    false
}

fn check_parts(commands: &Vec<PhysicsCommand>, from: usize) -> (b: bool)
    requires
        from <= commands@.len(),
    ensures
        b == has_all_parts(commands@.subrange(from as int, commands@.len() as int)),
{
    let ghost parts = commands@.subrange(from as int, commands@.len() as int);
    let mut part: u32 = 0;
    while (part as usize) < CAR_PART_COUNT
        invariant
            part <= CAR_PART_COUNT,
            from <= commands@.len(),
            parts == commands@.subrange(from as int, commands@.len() as int),
            forall|p: u32| p < part ==> has_part(parts, p),
        decreases CAR_PART_COUNT - part,
    {
        if !check_part(commands, from, part) {
            return false;
        }
        part = part + 1;
    }
    true
}

fn plan_car(scene: &Scene, visit: usize, car: usize, out: &mut Vec<PhysicsCommand>) -> (r: Result<
    (),
    PhysicsError,
>)
    requires
        scene.wf(),
        car < scene.gltf.nodes@.len(),
    ensures
        match r {
            Ok(()) => car_commands(scene, visit as int, car as int) == Ok::<
                Seq<PhysicsCommand>,
                PhysicsError,
            >(final(out)@.subrange(old(out)@.len() as int, final(out)@.len() as int))
                && final(out)@.len() >= old(out)@.len() && final(out)@.subrange(
                0,
                old(out)@.len() as int,
            ) == old(out)@,
            Err(e) => car_commands(scene, visit as int, car as int) == Err::<
                Seq<PhysicsCommand>,
                PhysicsError,
            >(e),
        },
{
    let gltf = &scene.gltf;
    let car_name = gltf.node_name(car);
    let children = &gltf.nodes[car].children;
    let start: usize = out.len();
    proof {
        assert(out@.subrange(0, start as int) =~= out@);
        assert(out@.subrange(start as int, start as int) =~= Seq::<PhysicsCommand>::empty());
    }
    let mut k: usize = 0;
    while k < children.len()
        invariant
            k <= children@.len(),
            scene.wf(),
            gltf == &scene.gltf,
            car < gltf.nodes@.len(),
            children == &gltf.nodes@[car as int].children,
            car_name@ == gltf.spec_node_name(car as int),
            start == old(out)@.len(),
            out@.len() == start + k,
            out@.subrange(0, start as int) == old(out)@,
            car_part_commands(scene, visit as int, car as int, k as nat) == Ok::<
                Seq<PhysicsCommand>,
                PhysicsError,
            >(out@.subrange(start as int, out@.len() as int)),
        decreases children@.len() - k,
    {
        let child: usize = children[k];
        assert(child < gltf.nodes@.len());
        let child_name = gltf.node_name(child);
        let ghost before = out@;
        let part = match find_car_part(&car_name, &child_name) {
            Some(part) => part,
            None => {
                proof {
                    lemma_car_parts_fail(scene, visit as int, car as int, (k + 1) as nat);
                }
                return Err(PhysicsError::UnknownCarPart { node: child });
            },
        };
        let mesh = match gltf.nodes[child].mesh {
            Some(mesh) => mesh,
            None => {
                proof {
                    lemma_car_parts_fail(scene, visit as int, car as int, (k + 1) as nat);
                }
                return Err(PhysicsError::MissingMesh { node: child });
            },
        };
        let place = position_of(&scene.meshes, mesh);
        if place >= scene.meshes.len() {
            proof {
                lemma_car_parts_fail(scene, visit as int, car as int, (k + 1) as nat);
            }
            return Err(PhysicsError::MissingMeshData { node: child });
        }
        out.push(PhysicsCommand::CarPart { visit, car, child, part, mesh: place });
        proof {
            assert(out@.subrange(0, start as int) =~= before.subrange(0, start as int));
            assert(out@.subrange(start as int, out@.len() as int) =~= before.subrange(
                start as int,
                before.len() as int,
            ).push(out@[out@.len() - 1]));
        }
        k = k + 1;
    }
    if !check_parts(out, start) {
        return Err(PhysicsError::IncompleteCar { node: car });
    }
    let ghost parts = out@.subrange(start as int, out@.len() as int);
    let ghost before = out@;
    out.push(PhysicsCommand::Car { visit, node: car });
    proof {
        assert(out@.subrange(0, start as int) =~= before.subrange(0, start as int));
        assert(out@.subrange(start as int, out@.len() as int) =~= parts.push(
            PhysicsCommand::Car { visit, node: car },
        ));
    }
    Ok(())
}

/// Plans the physics world of a scene: one actor for each node with a mesh
/// and a physics body, in the order of the walk. A vehicle is built from
/// its five parts, which are its children; what hangs below them gets no
/// actor. Every actor is bound to the entity that `map` has for its node.
pub fn plan_physics_world(scene: &Scene, map: &NodeToEntityMap) -> (r: Result<
    Vec<PhysicsCommand>,
    PhysicsError,
>)
    requires
        scene.wf(),
    ensures
        match r {
            Ok(commands) => physics_planned(scene, map) == Ok::<
                Seq<PhysicsCommand>,
                PhysicsError,
            >(commands@),
            Err(e) => physics_planned(scene, map) == Err::<Seq<PhysicsCommand>, PhysicsError>(e),
        },
{
    let mut out: Vec<PhysicsCommand> = Vec::new();
    let mut i: usize = 0;
    while i < scene.walk.len()
        invariant
            i <= scene.walk@.len(),
            scene.wf(),
            physics_planned(scene, map) == commands_after(
                out@,
                physics_planned_from(scene, map, i as int),
            ),
        decreases scene.walk@.len() - i,
    {
        let node: usize = scene.walk[i].node;
        assert(node < scene.gltf.nodes@.len());
        if scene.gltf.is_car(node) {
            let ghost before = out@;
            match plan_car(scene, i, node, &mut out) {
                Ok(()) => {
                    let next = skip_subtree(&scene.walk, i);
                    proof {
                        let commands = out@.subrange(before.len() as int, out@.len() as int);
                        let rest = physics_planned_from(scene, map, next as int);
                        assert(out@ =~= before + commands);
                        if rest is Ok {
                            assert(before + (commands + rest->Ok_0) =~= out@ + rest->Ok_0);
                        }
                    }
                    i = next;
                    continue;
                },
                Err(e) => {
                    return Err(e);
                },
            }
        }
        match plan_node(scene, map, i, node) {
            Err(e) => {
                return Err(e);
            },
            Ok(Some(command)) => {
                proof {
                    let rest = physics_planned_from(scene, map, i + 1);
                    if rest is Ok {
                        assert(out@ + (seq![command] + rest->Ok_0) =~= out@.push(command)
                            + rest->Ok_0);
                    }
                }
                out.push(command);
            },
            Ok(None) => {},
        }
        i = i + 1;
    }
    assert(out@ + Seq::<PhysicsCommand>::empty() =~= out@);
    Ok(out)
}

/// The eight words of a vertex: position, normal, texture coordinate.
pub open spec fn vertex_words(v: VertexLayout) -> Seq<u32> {
    seq![
        v.position[0],
        v.position[1],
        v.position[2],
        v.normal[0],
        v.normal[1],
        v.normal[2],
        v.uv[0],
        v.uv[1],
    ]
}

/// The words of the first `n` vertices.
pub open spec fn vertices_words(vertices: Seq<VertexLayout>, n: nat) -> Seq<u32>
    decreases n,
{
    if n == 0 || n > vertices.len() {
        Seq::empty()
    } else {
        vertices_words(vertices, (n - 1) as nat) + vertex_words(vertices[n - 1])
    }
}

/// The indices moved up by `base`.
pub open spec fn shifted_indices(indices: Seq<u32>, base: int) -> Seq<u32> {
    Seq::new(indices.len(), |i: int| (indices[i] + base) as u32)
}

/// The vertices of the triangle mesh of a mesh: those of its primitives, one
/// primitive after the other.
pub open spec fn collider_vertices(primitives: Seq<PrimitiveMeshData>) -> Seq<u32>
    decreases primitives.len(),
{
    if primitives.len() == 0 {
        Seq::empty()
    } else {
        collider_vertices(primitives.drop_last()) + vertices_words(
            primitives.last().vertices@,
            primitives.last().vertices@.len(),
        )
    }
}

/// The triangles of the triangle mesh of a mesh: the whole-mesh triangle
/// lists of its primitives, each moved up to where the vertices of its
/// primitive start.
pub open spec fn collider_indices(primitives: Seq<PrimitiveMeshData>) -> Seq<u32>
    decreases primitives.len(),
{
    if primitives.len() == 0 {
        Seq::empty()
    } else {
        collider_indices(primitives.drop_last()) + shifted_indices(
            primitives.last().whole_mesh_indices@,
            vertex_sum(primitives.drop_last()),
        )
    }
}

/// The positions of the vertices that the first `n` indices of the
/// collision proxy of a primitive name, three words each.
pub open spec fn proxy_points(primitive: PrimitiveMeshData, n: nat) -> Seq<u32>
    decreases n,
{
    if n == 0 || n > primitive.simplified_indices@.len() {
        Seq::empty()
    } else {
        let v = primitive.vertices@[primitive.simplified_indices@[n - 1] as int];
        proxy_points(primitive, (n - 1) as nat) + seq![v.position[0], v.position[1], v.position[2]]
    }
}

/// The point cloud of the convex collider of a mesh: the points of the
/// collision proxies of its primitives, one primitive after the other.
pub open spec fn collider_points(primitives: Seq<PrimitiveMeshData>) -> Seq<u32>
    decreases primitives.len(),
{
    if primitives.len() == 0 {
        Seq::empty()
    } else {
        collider_points(primitives.drop_last()) + proxy_points(
            primitives.last(),
            primitives.last().simplified_indices@.len(),
        )
    }
}

/// The number of points of the collision proxies of the primitives.
pub open spec fn proxy_sum(primitives: Seq<PrimitiveMeshData>) -> int
    decreases primitives.len(),
{
    if primitives.len() == 0 {
        0
    } else {
        proxy_sum(primitives.drop_last()) + primitives.last().simplified_indices@.len()
    }
}

/// The geometry of a triangle mesh collider: vertices of eight words each,
/// of which the first three are the position, and three indices for each
/// triangle.
pub struct TriangleMeshSource {
    pub vertices: Vec<u32>,
    pub vertex_count: usize,
    pub indices: Vec<u32>,
}

/// The geometry of a convex collider: points of three words each.
pub struct ConvexMeshSource {
    pub points: Vec<u32>,
    pub point_count: usize,
}

/// Every primitive of the mesh is well formed.
pub open spec fn mesh_wf(mesh: &MeshData) -> bool {
    forall|p: int|
        0 <= p < mesh.primitive_meshes@.len() ==> (#[trigger] mesh.primitive_meshes@[p]).wf()
}

fn append_vertex_words(out: &mut Vec<u32>, vertices: &Vec<VertexLayout>)
    ensures
        final(out)@ == old(out)@ + vertices_words(vertices@, vertices@.len()),
        final(out)@.len() == old(out)@.len() + 8 * vertices@.len(),
{
    let mut i: usize = 0;
    while i < vertices.len()
        invariant
            i <= vertices@.len(),
            out@ == old(out)@ + vertices_words(vertices@, i as nat),
            out@.len() == old(out)@.len() + 8 * i,
        decreases vertices@.len() - i,
    {
        let v = &vertices[i];
        let ghost before = out@;
        out.push(v.position[0]);
        out.push(v.position[1]);
        out.push(v.position[2]);
        out.push(v.normal[0]);
        out.push(v.normal[1]);
        out.push(v.normal[2]);
        out.push(v.uv[0]);
        out.push(v.uv[1]);
        assert(out@ =~= before + vertex_words(*v));
        assert(out@ =~= old(out)@ + vertices_words(vertices@, (i + 1) as nat));
        i = i + 1;
    }
}

fn append_shifted_indices(out: &mut Vec<u32>, indices: &Vec<u32>, base: u32, limit: usize)
    requires
        indices_in_range(indices@, limit as int),
        base + limit <= u32::MAX,
    ensures
        final(out)@ == old(out)@ + shifted_indices(indices@, base as int),
        forall|i: int|
            old(out)@.len() <= i < final(out)@.len() ==> (#[trigger] final(out)@[i]) < base
                + limit,
{
    let ghost target = shifted_indices(indices@, base as int);
    let mut i: usize = 0;
    while i < indices.len()
        invariant
            i <= indices@.len(),
            indices_in_range(indices@, limit as int),
            base + limit <= u32::MAX,
            target == shifted_indices(indices@, base as int),
            out@ == old(out)@ + target.take(i as int),
        decreases indices@.len() - i,
    {
        out.push(indices[i] + base);
        assert(target.take(i + 1) =~= target.take(i as int).push(target[i as int]));
        i = i + 1;
    }
    assert(target.take(indices@.len() as int) =~= target);
    assert forall|i: int| old(out)@.len() <= i < out@.len() implies (#[trigger] out@[i]) < base
        + limit by {
        let j = i - old(out)@.len();
        assert(out@[i] == target[j]);
        assert(indices@[j] < limit);
    }
}

/// Puts the triangle mesh of a mesh together: all primitives as one vertex
/// buffer and one list of whole triangles. There is none exactly when the
/// mesh has more vertices than a 32-bit index can name.
pub fn triangle_mesh_source(mesh: &MeshData) -> (r: Option<TriangleMeshSource>)
    requires
        mesh_wf(mesh),
    ensures
        r is Some <==> vertex_sum(mesh.primitive_meshes@) <= u32::MAX,
        r matches Some(source) ==> {
            &&& source.vertices@ == collider_vertices(mesh.primitive_meshes@)
            &&& source.indices@ == collider_indices(mesh.primitive_meshes@)
            &&& source.vertex_count == vertex_sum(mesh.primitive_meshes@)
            &&& source.vertices@.len() == 8 * source.vertex_count
            &&& indices_in_range(source.indices@, source.vertex_count as int)
            &&& source.indices@.len() % 3 == 0
        },
{
    let primitives = &mesh.primitive_meshes;
    let mut source = TriangleMeshSource { vertices: Vec::new(), vertex_count: 0, indices: Vec::new() };
    let mut p: usize = 0;
    while p < primitives.len()
        invariant
            p <= primitives@.len(),
            primitives == &mesh.primitive_meshes,
            mesh_wf(mesh),
            source.vertices@ == collider_vertices(primitives@.take(p as int)),
            source.indices@ == collider_indices(primitives@.take(p as int)),
            source.vertex_count == vertex_sum(primitives@.take(p as int)),
            source.vertex_count <= u32::MAX,
            source.vertices@.len() == 8 * source.vertex_count,
            indices_in_range(source.indices@, source.vertex_count as int),
            source.indices@.len() % 3 == 0,
        decreases primitives@.len() - p,
    {
        let primitive = &primitives[p];
        proof {
            assert(primitives@.take(p + 1).drop_last() =~= primitives@.take(p as int));
            assert(primitives@.take(p + 1).last() == *primitive);
            assert(primitive.wf());
            lemma_whole_mesh_in_range(primitive);
            crate::geometry_builder::lemma_sums_monotonic(primitives@, p + 1);
        }
        if primitive.vertices.len() > u32::MAX as usize - source.vertex_count {
            return None;
        }
        let ghost before = source.indices@;
        append_vertex_words(&mut source.vertices, &primitive.vertices);
        append_shifted_indices(
            &mut source.indices,
            &primitive.whole_mesh_indices,
            source.vertex_count as u32,
            primitive.vertices.len(),
        );
        source.vertex_count = source.vertex_count + primitive.vertices.len();
        proof {
            assert forall|i: int| 0 <= i < source.indices@.len() implies (
            #[trigger] source.indices@[i]) < source.vertex_count by {
                if i < before.len() {
                    assert(source.indices@[i] == before[i]);
                }
            }
        }
        p = p + 1;
    }
    proof {
        assert(primitives@.take(primitives@.len() as int) =~= primitives@);
    }
    Some(source)
}

/// The number of points only grows as more primitives are counted.
pub proof fn lemma_proxy_sum_monotonic(primitives: Seq<PrimitiveMeshData>, k: int)
    requires
        0 <= k <= primitives.len(),
    ensures
        0 <= proxy_sum(primitives.take(k)) <= proxy_sum(primitives),
    decreases primitives.len() - k,
{
    if k < primitives.len() {
        lemma_proxy_sum_monotonic(primitives, k + 1);
        assert(primitives.take(k + 1).drop_last() =~= primitives.take(k));
        lemma_proxy_sum_nonnegative(primitives.take(k));
    } else {
        assert(primitives.take(k) =~= primitives);
        lemma_proxy_sum_nonnegative(primitives);
    }
}

/// The number of points is never negative.
pub proof fn lemma_proxy_sum_nonnegative(primitives: Seq<PrimitiveMeshData>)
    ensures
        0 <= proxy_sum(primitives),
    decreases primitives.len(),
{
    if primitives.len() > 0 {
        lemma_proxy_sum_nonnegative(primitives.drop_last());
    }
}

fn append_proxy_points(out: &mut Vec<u32>, primitive: &PrimitiveMeshData)
    requires
        primitive.wf(),
    ensures
        final(out)@ == old(out)@ + proxy_points(*primitive, primitive.simplified_indices@.len()),
        final(out)@.len() == old(out)@.len() + 3 * primitive.simplified_indices@.len(),
{
    let mut i: usize = 0;
    while i < primitive.simplified_indices.len()
        invariant
            i <= primitive.simplified_indices@.len(),
            primitive.wf(),
            out@ == old(out)@ + proxy_points(*primitive, i as nat),
            out@.len() == old(out)@.len() + 3 * i,
        decreases primitive.simplified_indices@.len() - i,
    {
        let index: usize = primitive.simplified_indices[i] as usize;
        let v = &primitive.vertices[index];
        let ghost before = out@;
        out.push(v.position[0]);
        out.push(v.position[1]);
        out.push(v.position[2]);
        assert(out@ =~= before + seq![v.position[0], v.position[1], v.position[2]]);
        assert(out@ =~= old(out)@ + proxy_points(*primitive, (i + 1) as nat));
        i = i + 1;
    }
}

/// Puts the point cloud of the convex collider of a mesh together: the
/// positions of the vertices that the collision proxies of its primitives
/// name. There is none exactly when there are more points than 32 bits can
/// count.
pub fn convex_mesh_source(mesh: &MeshData) -> (r: Option<ConvexMeshSource>)
    requires
        mesh_wf(mesh),
    ensures
        r is Some <==> proxy_sum(mesh.primitive_meshes@) <= u32::MAX,
        r matches Some(source) ==> {
            &&& source.points@ == collider_points(mesh.primitive_meshes@)
            &&& source.point_count == proxy_sum(mesh.primitive_meshes@)
            &&& source.points@.len() == 3 * source.point_count
        },
{
    let primitives = &mesh.primitive_meshes;
    let mut source = ConvexMeshSource { points: Vec::new(), point_count: 0 };
    let mut p: usize = 0;
    while p < primitives.len()
        invariant
            p <= primitives@.len(),
            primitives == &mesh.primitive_meshes,
            mesh_wf(mesh),
            source.points@ == collider_points(primitives@.take(p as int)),
            source.point_count == proxy_sum(primitives@.take(p as int)),
            source.point_count <= u32::MAX,
            source.points@.len() == 3 * source.point_count,
        decreases primitives@.len() - p,
    {
        let primitive = &primitives[p];
        proof {
            assert(primitives@.take(p + 1).drop_last() =~= primitives@.take(p as int));
            assert(primitives@.take(p + 1).last() == *primitive);
            assert(primitive.wf());
            lemma_proxy_sum_monotonic(primitives@, p + 1);
        }
        if primitive.simplified_indices.len() > u32::MAX as usize - source.point_count {
            return None;
        }
        append_proxy_points(&mut source.points, primitive);
        source.point_count = source.point_count + primitive.simplified_indices.len();
        p = p + 1;
    }
    proof {
        assert(primitives@.take(primitives@.len() as int) =~= primitives@);
    }
    Some(source)
}

/// The build step that plans the physics world of a scene. It needs the
/// mapping from nodes to entities and so can only be made once the entity
/// world is compiled.
pub struct PhysicsWorldResource {
    pub scene: Arc<Scene>,
    pub meshes: Arc<Vec<MeshData>>,
    pub node_to_entity_map: NodeToEntityMap,
}

impl PhysicsWorldResource {
    pub fn new(scene: Arc<Scene>, meshes: Arc<Vec<MeshData>>, node_to_entity_map: NodeToEntityMap) -> (r:
        PhysicsWorldResource)
        ensures
            r.scene == scene,
            r.meshes == meshes,
            r.node_to_entity_map == node_to_entity_map,
    {
        PhysicsWorldResource { scene, meshes, node_to_entity_map }
    }
}

impl Resource for PhysicsWorldResource {
    type ReturnValue = Result<Vec<PhysicsCommand>, PhysicsError>;

    /// The scene is sound and its physics world can be planned: every
    /// collision shape is of a known kind, no triangle mesh moves, every
    /// collider has an entity, and a vehicle has its five parts. A scene for
    /// which this does not hold is a fatal input error and must not be
    /// handed to the step; `plan_physics_world` tells.
    open spec fn is_ready(&self) -> bool {
        &&& self.scene.wf()
        &&& physics_planned(&self.scene, &self.node_to_entity_map) is Ok
    }

    /// The value is the plan of the physics world of the scene.
    open spec fn yields(&self, value: &Result<Vec<PhysicsCommand>, PhysicsError>) -> bool {
        value matches Ok(commands) && physics_planned(&self.scene, &self.node_to_entity_map)
            == Ok::<Seq<PhysicsCommand>, PhysicsError>(commands@)
    }

    fn compile(&self, compiler: Arc<AsyncCompiler>) -> (value: Result<
        Vec<PhysicsCommand>,
        PhysicsError,
    >) {
        plan_physics_world(&self.scene, &self.node_to_entity_map)
    }
}

} // verus!
