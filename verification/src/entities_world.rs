//! The entities-world builder: one entity for each mesh and for each
//! directional light that the walk through the scene meets.
//!
//! The builder works in two steps. The plan says which entities there are:
//! it follows the walk through the scene and asks for one entity for each
//! node with a mesh and each node with a directional light. The children of
//! a vehicle are its parts; each gets an entity, and the plan goes on behind
//! the vehicle. The world is then built from the plan and from the placement
//! of each entity, which is worked out of the transforms of the scene outside
//! this library.

use std::collections::HashMap;
use std::sync::Arc;
use vstd::prelude::*;
use vstd::string::StringExecFns;
use crate::compiler::AsyncCompiler;
use crate::flecs::{
    entity_count, entity_sum, id_of_new_entity, lemma_stable_ids_differ, lemma_world_size,
    with_entity, world_blob, world_fits, world_wf, ArchetypeModel, Components, FlecsState, Tags,
    TemporaryEntityId, UNPATCHED_CAR_ACTOR,
};
use crate::resources::Resource;
use crate::scene::{
    lemma_skip_deeper, next_after_subtree, skip_subtree, GltfData, LightKind, Node, Scene, Visit,
};

verus! {

/// The number of parts of a vehicle: four wheels and the chassis.
pub const CAR_PART_COUNT: usize = 5;

/// Why the entities of a scene could not be planned or built.
#[derive(Clone, Copy, Debug, PartialEq, Eq, Structural)]
pub enum EntitiesError {
    /// A node has a mesh but no annotations.
    MissingExtension { node: usize },
    /// A child of a vehicle is not named after one of its parts.
    UnknownCarPart { node: usize },
    /// A child of a vehicle has no mesh.
    MissingMesh { node: usize },
    /// The index of a mesh does not fit 32 bits, or the world has more
    /// entities than can be counted.
    TooLarge,
}

/// What an entity is.
#[derive(Clone, Copy, Debug)]
pub enum EntityKind {
    /// An instance of a mesh. A part of a vehicle knows which part it is.
    Mesh { mesh_index: u32, dynamic: bool, car_part: Option<u32> },
    /// A directional light.
    DirectionalLight { color: [u32; 3], intensity: u32 },
}

/// One entity of the plan. The entity stands for `node`. It is placed by
/// the world transform of the visit at place `visit` of the walk; a part of a
/// vehicle is placed by that transform and its own local transform.
#[derive(Clone, Copy, Debug)]
pub struct EntityRequest {
    pub visit: usize,
    pub node: usize,
    pub is_car_part: bool,
    pub kind: EntityKind,
}

/// The placement of an entity: translation, rotation and scale in the
/// coordinate system of the runtime.
#[derive(Clone, Copy, Debug)]
pub struct Trs {
    pub translate: [u32; 3],
    pub rotate: [u32; 4],
    pub scale: [u32; 3],
}

/// The ending of the name of each part of a vehicle, in the order of the
/// wheels of the physics engine, the chassis last.
pub open spec fn car_part_suffix(part: int) -> Seq<char> {
    if part == 0 {
        "_FrontLeftWheel"@
    } else if part == 1 {
        "_FrontRightWheel"@
    } else if part == 2 {
        "_RearLeftWheel"@
    } else if part == 3 {
        "_RearRightWheel"@
    } else {
        "_Chassis"@
    }
}

/// The first part, from `from` on, that a child of the vehicle `car` with the
/// given name is; none if it is named after no part.
pub open spec fn car_part_from(car: Seq<char>, name: Seq<char>, from: int) -> Option<u32>
    decreases CAR_PART_COUNT - from,
{
    if from < 0 || from >= CAR_PART_COUNT {
        None
    } else if car + car_part_suffix(from) == name {
        Some(from as u32)
    } else {
        car_part_from(car, name, from + 1)
    }
}

/// The part that a child of the vehicle `car` with the given name is.
pub open spec fn car_part_of(car: Seq<char>, name: Seq<char>) -> Option<u32> {
    car_part_from(car, name, 0)
}

fn suffix(part: usize) -> (s: &'static str)
    requires
        part < CAR_PART_COUNT,
    ensures
        s@ == car_part_suffix(part as int),
{
    if part == 0 {
        "_FrontLeftWheel"
    } else if part == 1 {
        "_FrontRightWheel"
    } else if part == 2 {
        "_RearLeftWheel"
    } else if part == 3 {
        "_RearRightWheel"
    } else {
        "_Chassis"
    }
}

/// Finds the part of a vehicle that a child is named after.
pub fn find_car_part(car: &String, name: &String) -> (part: Option<u32>)
    ensures
        part == car_part_of(car@, name@),
{
    let mut p: usize = 0;
    while p < CAR_PART_COUNT
        invariant
            p <= CAR_PART_COUNT,
            car_part_of(car@, name@) == car_part_from(car@, name@, p as int),
        decreases CAR_PART_COUNT - p,
    {
        let candidate = car.clone().concat(suffix(p));
        if candidate == *name {
            return Some(p as u32);
        }
        p = p + 1;
    }
    None
}

/// The entity for a child of a vehicle.
pub open spec fn car_child_request(gltf: &GltfData, visit: int, car: int, child: int) -> Result<
    EntityRequest,
    EntitiesError,
> {
    match car_part_of(gltf.spec_node_name(car), gltf.spec_node_name(child)) {
        None => Err(EntitiesError::UnknownCarPart { node: child as usize }),
        Some(part) => match gltf.nodes@[child].mesh {
            None => Err(EntitiesError::MissingMesh { node: child as usize }),
            Some(mesh) => if mesh > u32::MAX {
                Err(EntitiesError::TooLarge)
            } else {
                Ok(
                    EntityRequest {
                        visit: visit as usize,
                        node: child as usize,
                        is_car_part: true,
                        kind: EntityKind::Mesh {
                            mesh_index: mesh as u32,
                            dynamic: false,
                            car_part: Some(part),
                        },
                    },
                )
            },
        },
    }
}

/// The entities for the first `k` children of a vehicle.
pub open spec fn car_requests(gltf: &GltfData, visit: int, car: int, k: nat) -> Result<
    Seq<EntityRequest>,
    EntitiesError,
>
    decreases k,
{
    if k == 0 || k > gltf.nodes@[car].children@.len() {
        Ok(Seq::empty())
    } else {
        match car_requests(gltf, visit, car, (k - 1) as nat) {
            Err(e) => Err(e),
            Ok(before) => match car_child_request(
                gltf,
                visit,
                car,
                gltf.nodes@[car].children@[k - 1] as int,
            ) {
                Err(e) => Err(e),
                Ok(request) => Ok(before.push(request)),
            },
        }
    }
}

/// The node is dynamic: it has a physics body that says so.
pub open spec fn is_dynamic(node: Node) -> bool {
    node.extension matches Some(extension) && extension.physics_body matches Some(body)
        && body.dynamic
}

/// The entity for a node that is no vehicle: one for a node with a mesh, one
/// for a node without a mesh but with a directional light, none otherwise.
pub open spec fn node_request(gltf: &GltfData, visit: int, node: int) -> Result<
    Option<EntityRequest>,
    EntitiesError,
> {
    let n = gltf.nodes@[node];
    match n.mesh {
        Some(mesh) => if n.extension is None {
            Err(EntitiesError::MissingExtension { node: node as usize })
        } else if mesh > u32::MAX {
            Err(EntitiesError::TooLarge)
        } else {
            Ok(
                Some(
                    EntityRequest {
                        visit: visit as usize,
                        node: node as usize,
                        is_car_part: false,
                        kind: EntityKind::Mesh {
                            mesh_index: mesh as u32,
                            dynamic: is_dynamic(n),
                            car_part: None,
                        },
                    },
                ),
            )
        },
        None => match n.light {
            Some(light) => if light.kind == LightKind::Directional {
                Ok(
                    Some(
                        EntityRequest {
                            visit: visit as usize,
                            node: node as usize,
                            is_car_part: false,
                            kind: EntityKind::DirectionalLight {
                                color: light.color,
                                intensity: light.intensity,
                            },
                        },
                    ),
                )
            } else {
                Ok(None)
            },
            None => Ok(None),
        },
    }
}

/// A request put in front of a plan that may have failed.
pub open spec fn plan_after(
    first: Seq<EntityRequest>,
    rest: Result<Seq<EntityRequest>, EntitiesError>,
) -> Result<Seq<EntityRequest>, EntitiesError> {
    match rest {
        Err(e) => Err(e),
        Ok(requests) => Ok(first + requests),
    }
}

/// The plan from place `i` of the walk on: the entities of the nodes in the
/// order of the walk. A vehicle gets its parts, which are its children; the
/// plan then goes on behind the subtree of the vehicle. The first node that
/// cannot be planned fails the plan.
pub open spec fn planned_from(gltf: &GltfData, walk: Seq<Visit>, i: int) -> Result<
    Seq<EntityRequest>,
    EntitiesError,
>
    decreases walk.len() - i,
    via planned_from_decreases
{
    if i < 0 || i >= walk.len() {
        Ok(Seq::empty())
    } else {
        let node = walk[i].node as int;
        if gltf.spec_is_car(node) {
            match car_requests(gltf, i, node, gltf.nodes@[node].children@.len()) {
                Err(e) => Err(e),
                Ok(parts) => plan_after(
                    parts,
                    planned_from(gltf, walk, next_after_subtree(walk, i)),
                ),
            }
        } else {
            match node_request(gltf, i, node) {
                Err(e) => Err(e),
                Ok(Some(request)) => plan_after(seq![request], planned_from(gltf, walk, i + 1)),
                Ok(None) => planned_from(gltf, walk, i + 1),
            }
        }
    }
}

#[via_fn]
proof fn planned_from_decreases(gltf: &GltfData, walk: Seq<Visit>, i: int) {
    if 0 <= i < walk.len() {
        lemma_skip_deeper(walk, walk[i].depth, i + 1);
    }
}

/// The plan of a scene.
pub open spec fn planned(scene: &Scene) -> Result<Seq<EntityRequest>, EntitiesError> {
    planned_from(&scene.gltf, scene.walk@, 0)
}

fn plan_car(gltf: &GltfData, visit: usize, car: usize, out: &mut Vec<EntityRequest>) -> (r: Result<
    (),
    EntitiesError,
>)
    requires
        gltf.wf(),
        car < gltf.nodes@.len(),
    ensures
        match r {
            Ok(()) => car_requests(
                gltf,
                visit as int,
                car as int,
                gltf.nodes@[car as int].children@.len(),
            ) == Ok::<Seq<EntityRequest>, EntitiesError>(
                final(out)@.subrange(old(out)@.len() as int, final(out)@.len() as int),
            ) && final(out)@.len() >= old(out)@.len() && final(out)@.subrange(
                0,
                old(out)@.len() as int,
            ) == old(out)@,
            Err(e) => car_requests(
                gltf,
                visit as int,
                car as int,
                gltf.nodes@[car as int].children@.len(),
            ) == Err::<Seq<EntityRequest>, EntitiesError>(e),
        },
{
    let car_name = gltf.node_name(car);
    let children = &gltf.nodes[car].children;
    let ghost start = out@.len() as int;
    proof {
        assert(out@.subrange(0, start) =~= out@);
        assert(out@.subrange(start, start) =~= Seq::<EntityRequest>::empty());
    }
    let mut k: usize = 0;
    while k < children.len()
        invariant
            k <= children@.len(),
            gltf.wf(),
            car < gltf.nodes@.len(),
            children == &gltf.nodes@[car as int].children,
            car_name@ == gltf.spec_node_name(car as int),
            start == old(out)@.len(),
            out@.len() == start + k,
            out@.subrange(0, start) == old(out)@,
            car_requests(gltf, visit as int, car as int, k as nat) == Ok::<
                Seq<EntityRequest>,
                EntitiesError,
            >(out@.subrange(start, out@.len() as int)),
        decreases children@.len() - k,
    {
        let child: usize = children[k];
        assert(child < gltf.nodes@.len());
        let child_name = gltf.node_name(child);
        let ghost before = out@;
        let part = match find_car_part(&car_name, &child_name) {
            Some(part) => part,
            None => {
                proof {
                    lemma_car_requests_fail(gltf, visit as int, car as int, (k + 1) as nat);
                }
                return Err(EntitiesError::UnknownCarPart { node: child });
            },
        };
        let mesh = match gltf.nodes[child].mesh {
            Some(mesh) => mesh,
            None => {
                proof {
                    lemma_car_requests_fail(gltf, visit as int, car as int, (k + 1) as nat);
                }
                return Err(EntitiesError::MissingMesh { node: child });
            },
        };
        if mesh > u32::MAX as usize {
            proof {
                lemma_car_requests_fail(gltf, visit as int, car as int, (k + 1) as nat);
            }
            return Err(EntitiesError::TooLarge);
        }
        out.push(
            EntityRequest {
                visit,
                node: child,
                is_car_part: true,
                kind: EntityKind::Mesh { mesh_index: mesh as u32, dynamic: false, car_part: Some(part) },
            },
        );
        proof {
            assert(out@.subrange(0, start) =~= before.subrange(0, start));
            assert(out@.subrange(start, out@.len() as int) =~= before.subrange(
                start,
                before.len() as int,
            ).push(out@[out@.len() - 1]));
        }
        k = k + 1;
    }
    Ok(())
}

/// Once the plan for some children of a vehicle has failed, the plan for
/// all of them fails the same way.
pub proof fn lemma_car_requests_fail(gltf: &GltfData, visit: int, car: int, k: nat)
    requires
        k <= gltf.nodes@[car].children@.len(),
        car_requests(gltf, visit, car, k) is Err,
    ensures
        car_requests(gltf, visit, car, gltf.nodes@[car].children@.len()) == car_requests(
            gltf,
            visit,
            car,
            k,
        ),
    decreases gltf.nodes@[car].children@.len() - k,
{
    if k < gltf.nodes@[car].children@.len() {
        lemma_car_requests_fail(gltf, visit, car, k + 1);
    }
}

fn plan_node(gltf: &GltfData, visit: usize, node: usize) -> (r: Result<Option<EntityRequest>, EntitiesError>)
    requires
        node < gltf.nodes@.len(),
    ensures
        r == node_request(gltf, visit as int, node as int),
{
    let n = &gltf.nodes[node];
    match n.mesh {
        Some(mesh) => {
            let extension = match n.extension {
                Some(extension) => extension,
                None => {
                    return Err(EntitiesError::MissingExtension { node });
                },
            };
            if mesh > u32::MAX as usize {
                return Err(EntitiesError::TooLarge);
            }
            let dynamic = match extension.physics_body {
                Some(body) => body.dynamic,
                None => false,
            };
            Ok(
                Some(
                    EntityRequest {
                        visit,
                        node,
                        is_car_part: false,
                        kind: EntityKind::Mesh { mesh_index: mesh as u32, dynamic, car_part: None },
                    },
                ),
            )
        },
        None => match n.light {
            Some(light) => {
                if light.kind == LightKind::Directional {
                    Ok(
                        Some(
                            EntityRequest {
                                visit,
                                node,
                                is_car_part: false,
                                kind: EntityKind::DirectionalLight {
                                    color: light.color,
                                    intensity: light.intensity,
                                },
                            },
                        ),
                    )
                } else {
                    Ok(None)
                }
            },
            None => Ok(None),
        },
    }
}

/// Plans the entities of a scene: one for each node with a mesh and one for
/// each node with a directional light and no mesh, in the order of the walk.
/// The children of a vehicle are its parts: each gets an entity, and what
/// hangs below them gets none.
pub fn plan_entities(scene: &Scene) -> (r: Result<Vec<EntityRequest>, EntitiesError>)
    requires
        scene.wf(),
    ensures
        match r {
            Ok(requests) => planned(scene) == Ok::<Seq<EntityRequest>, EntitiesError>(requests@),
            Err(e) => planned(scene) == Err::<Seq<EntityRequest>, EntitiesError>(e),
        },
{
    let gltf = &scene.gltf;
    let walk = &scene.walk;
    let mut out: Vec<EntityRequest> = Vec::new();
    let mut i: usize = 0;
    while i < walk.len()
        invariant
            i <= walk@.len(),
            scene.wf(),
            gltf == &scene.gltf,
            walk == &scene.walk,
            planned(scene) == plan_after(out@, planned_from(gltf, walk@, i as int)),
        decreases walk@.len() - i,
    {
        let node: usize = walk[i].node;
        assert(node < gltf.nodes@.len());
        if gltf.is_car(node) {
            let ghost before = out@;
            match plan_car(gltf, i, node, &mut out) {
                Ok(()) => {
                    let next = skip_subtree(walk, i);
                    proof {
                        let parts = out@.subrange(before.len() as int, out@.len() as int);
                        let rest = planned_from(gltf, walk@, next as int);
                        assert(out@ =~= before + parts);
                        if rest is Ok {
                            assert(before + (parts + rest->Ok_0) =~= out@ + rest->Ok_0);
                        }
                    }
                    i = next;
                    continue;
                },
                Err(e) => {
                    return Err(e);
                },
            }
        }
        match plan_node(gltf, i, node) {
            Err(e) => {
                return Err(e);
            },
            Ok(Some(request)) => {
                proof {
                    let rest = planned_from(gltf, walk@, i + 1);
                    if rest is Ok {
                        assert(out@ + (seq![request] + rest->Ok_0) =~= out@.push(request)
                            + rest->Ok_0);
                    }
                }
                out.push(request);
            },
            Ok(None) => {},
        }
        i = i + 1;
    }
    assert(out@ + Seq::<EntityRequest>::empty() =~= out@);
    Ok(out)
}

/// The mapping from scene nodes to the stable ids of their entities. A node
/// that is entered twice keeps its last id.
pub struct NodeToEntityMap {
    pub entries: HashMap<usize, usize>,
}

impl View for NodeToEntityMap {
    type V = Map<usize, usize>;

    open spec fn view(&self) -> Map<usize, usize> {
        self.entries@
    }
}

impl NodeToEntityMap {
    pub fn new() -> (map: NodeToEntityMap)
        ensures
            map@ == Map::<usize, usize>::empty(),
    {
        NodeToEntityMap { entries: HashMap::new() }
    }

    /// The id of the entity of a node.
    pub open spec fn spec_get(&self, node: usize) -> Option<usize> {
        if self@.contains_key(node) {
            Some(self@[node])
        } else {
            None
        }
    }

    pub fn insert(&mut self, node: usize, id: usize)
        ensures
            final(self)@ == old(self)@.insert(node, id),
    {
        self.entries.insert(node, id);
    }

    pub fn get(&self, node: usize) -> (id: Option<usize>)
        ensures
            id == self.spec_get(node),
    {
        match self.entries.get(&node) {
            Some(id) => Some(*id),
            None => None,
        }
    }
}

/// The components of an entity: every entity has a transform; an instance of
/// a mesh names its mesh, has a physics actor if it is dynamic and no part of
/// a vehicle, and knows its part if it is one; a light has its colour.
pub open spec fn entity_components(request: EntityRequest, trs: Trs) -> Seq<Components> {
    let transform = Components::Transform {
        position: trs.translate,
        scale: trs.scale,
        rotation: trs.rotate,
    };
    match request.kind {
        EntityKind::Mesh { mesh_index, dynamic, car_part } => {
            let base = seq![transform, Components::StaticMesh { mesh: mesh_index }];
            let actor = if dynamic && car_part is None {
                seq![Components::DynamicPhysicsActor { actor: 0 }]
            } else {
                Seq::empty()
            };
            let part = match car_part {
                Some(shape_index) => seq![
                    Components::CarPhysicsPart { car_actor: UNPATCHED_CAR_ACTOR, shape_index },
                ],
                None => Seq::empty(),
            };
            base + actor + part
        },
        EntityKind::DirectionalLight { color, intensity } => seq![
            transform,
            Components::LightColorInfo { color, intensity },
        ],
    }
}

/// The tags of an entity: a light is tagged as directional light.
pub open spec fn entity_tags(request: EntityRequest) -> Seq<Tags> {
    match request.kind {
        EntityKind::Mesh { .. } => Seq::empty(),
        EntityKind::DirectionalLight { .. } => seq![Tags::DirectionalLight],
    }
}

pub fn components_of(request: &EntityRequest, trs: &Trs) -> (components: Vec<Components>)
    ensures
        components@ == entity_components(*request, *trs),
        2 <= components@.len() <= 3,
{
    let mut components: Vec<Components> = Vec::new();
    components.push(
        Components::Transform { position: trs.translate, scale: trs.scale, rotation: trs.rotate },
    );
    match request.kind {
        EntityKind::Mesh { mesh_index, dynamic, car_part } => {
            components.push(Components::StaticMesh { mesh: mesh_index });
            if dynamic && car_part.is_none() {
                components.push(Components::DynamicPhysicsActor { actor: 0 });
            }
            match car_part {
                Some(shape_index) => {
                    components.push(
                        Components::CarPhysicsPart { car_actor: UNPATCHED_CAR_ACTOR, shape_index },
                    );
                },
                None => {},
            }
        },
        EntityKind::DirectionalLight { color, intensity } => {
            components.push(Components::LightColorInfo { color, intensity });
        },
    }
    assert(components@ =~= entity_components(*request, *trs));
    components
}

pub fn tags_of(request: &EntityRequest) -> (tags: Vec<Tags>)
    ensures
        tags@ == entity_tags(*request),
        tags@.len() <= 1,
{
    let mut tags: Vec<Tags> = Vec::new();
    match request.kind {
        EntityKind::Mesh { .. } => {},
        EntityKind::DirectionalLight { .. } => {
            tags.push(Tags::DirectionalLight);
        },
    }
    assert(tags@ =~= entity_tags(*request));
    tags
}

/// The world after the entities of the first `n` requests were created, in
/// order.
pub open spec fn world_after(requests: Seq<EntityRequest>, transforms: Seq<Trs>, n: nat) -> Seq<
    ArchetypeModel,
>
    decreases n,
{
    if n == 0 || n > requests.len() {
        Seq::empty()
    } else {
        with_entity(
            world_after(requests, transforms, (n - 1) as nat),
            entity_components(requests[n - 1], transforms[n - 1]),
            entity_tags(requests[n - 1]),
        )
    }
}

/// The temporary id of the entity of request `i`.
pub open spec fn temporary_id(requests: Seq<EntityRequest>, transforms: Seq<Trs>, i: int) -> TemporaryEntityId {
    id_of_new_entity(
        world_after(requests, transforms, i as nat),
        entity_components(requests[i], transforms[i]),
        entity_tags(requests[i]),
    )
}

/// The stable id of the entity of request `i`, once all entities are
/// created.
pub open spec fn stable_id(requests: Seq<EntityRequest>, transforms: Seq<Trs>, i: int) -> int {
    entity_sum(
        world_after(requests, transforms, requests.len()),
        temporary_id(requests, transforms, i).archetype_index as int,
    ) + temporary_id(requests, transforms, i).entity_index
}

/// The mapping once the entities of the first `n` requests are entered: the
/// node of each is mapped to the stable id of its entity.
pub open spec fn node_map(requests: Seq<EntityRequest>, transforms: Seq<Trs>, n: nat) -> Map<
    usize,
    usize,
>
    decreases n,
{
    if n == 0 || n > requests.len() {
        Map::empty()
    } else {
        node_map(requests, transforms, (n - 1) as nat).insert(
            requests[n - 1].node,
            stable_id(requests, transforms, n - 1) as usize,
        )
    }
}

/// No two entities of the plan have the same stable id.
pub open spec fn ids_differ(requests: Seq<EntityRequest>, transforms: Seq<Trs>) -> bool {
    forall|a: int, b: int|
        0 <= a < b < requests.len() ==> #[trigger] stable_id(requests, transforms, a)
            != #[trigger] stable_id(requests, transforms, b)
}

/// There are more entities than can be counted.
pub open spec fn too_many(n: int) -> bool {
    5 * n + 5 > usize::MAX
}

/// Creating an entity leaves every archetype where it is and takes no
/// entity away.
pub proof fn lemma_with_entity_monotonic(
    world: Seq<ArchetypeModel>,
    components: Seq<Components>,
    tags: Seq<Tags>,
)
    requires
        world_wf(world),
        components.len() > 0,
    ensures
        with_entity(world, components, tags).len() >= world.len(),
        forall|a: int|
            0 <= a < world.len() ==> entity_count(
                #[trigger] with_entity(world, components, tags)[a],
            ) >= entity_count(world[a]),
{
    let name = crate::flecs::archetype_name(components, tags);
    lemma_find_in_range(world, name, 0);
    let index = crate::flecs::find_archetype(world, name, 0);
    let after = with_entity(world, components, tags);
    assert forall|a: int| 0 <= a < world.len() implies entity_count(#[trigger] after[a])
        >= entity_count(world[a]) by {
        if a == index {
            assert(world[a].arrays.len() > 0);
            assert(after[a].arrays[0] == world[a].arrays[0].push(components[0]));
        }
    }
}

/// The search for an archetype ends at an archetype or behind the last.
pub proof fn lemma_find_in_range(world: Seq<ArchetypeModel>, name: Seq<char>, from: int)
    requires
        0 <= from,
    ensures
        from <= crate::flecs::find_archetype(world, name, from) || crate::flecs::find_archetype(
            world,
            name,
            from,
        ) == world.len(),
        crate::flecs::find_archetype(world, name, from) <= world.len(),
    decreases world.len() - from,
{
    if from < world.len() && world[from].name != name {
        lemma_find_in_range(world, name, from + 1);
    }
}

/// The serialized entity world with the mapping from nodes to entities.
pub struct EntitiesWorld {
    pub blob: Vec<u8>,
    pub node_to_entity_map: NodeToEntityMap,
}

/// Builds the entity world of a plan. `transforms` holds the placement of
/// each entity of the plan. The entities are created in the order of the
/// plan; each gets its stable id once all are created, and the node of each
/// is mapped to that id.
///
/// Fails exactly when there are more entities than can be counted or the
/// world does not fit the 32-bit counts of its serialized form.
pub fn build_entities_world(requests: &Vec<EntityRequest>, transforms: &Vec<Trs>) -> (r: Result<
    EntitiesWorld,
    EntitiesError,
>)
    requires
        requests@.len() == transforms@.len(),
    ensures
        r is Ok <==> !too_many(requests@.len() as int) && world_fits(
            world_after(requests@, transforms@, requests@.len()),
        ),
        r matches Err(e) ==> e == EntitiesError::TooLarge,
        r matches Ok(world) ==> {
            &&& world.blob@ == world_blob(world_after(requests@, transforms@, requests@.len()))
            &&& world.node_to_entity_map@ == node_map(requests@, transforms@, requests@.len())
            &&& ids_differ(requests@, transforms@)
        },
{
    let count: usize = requests.len();
    if count > (usize::MAX - 5) / 5 {
        return Err(EntitiesError::TooLarge);
    }
    let mut state = FlecsState::new();
    let mut ids: Vec<TemporaryEntityId> = Vec::new();
    let mut i: usize = 0;
    proof {
        lemma_world_size(state@, state@, 0);
    }
    while i < count
        invariant
            i <= count,
            count == requests@.len(),
            requests@.len() == transforms@.len(),
            5 * count + 5 <= usize::MAX,
            state.wf(),
            state@ == world_after(requests@, transforms@, i as nat),
            state.size() <= 5 * i,
            state.archetype_num_entities_prefix_sum@.len() == 0,
            ids@.len() == i,
            forall|j: int|
                0 <= j < i ==> {
                    &&& #[trigger] ids@[j] == temporary_id(requests@, transforms@, j)
                    &&& ids@[j].archetype_index < state@.len()
                    &&& ids@[j].entity_index < entity_count(state@[ids@[j].archetype_index as int])
                },
            forall|a: int, b: int| 0 <= a < b < i ==> #[trigger] ids@[a] != #[trigger] ids@[b],
        decreases count - i,
    {
        let components = components_of(&requests[i], &transforms[i]);
        let tags = tags_of(&requests[i]);
        let ghost before = state@;
        let ghost earlier = ids@;
        let ghost parts = components@;
        let archetype_count: usize = state.archetypes.len();
        proof {
            lemma_with_entity_monotonic(before, components@, tags@);
        }
        let id = state.create_entity("", components, &tags);
        ids.push(id);
        proof {
            assert forall|a: int, b: int| 0 <= a < b < i + 1 implies #[trigger] ids@[a]
                != #[trigger] ids@[b] by {
                if b == i {
                    assert(ids@[b] == id);
                    assert(id == id_of_new_entity(before, parts, tags@));
                    assert(ids@[a] == earlier[a]);
                    assert(earlier[a].archetype_index < before.len());
                    assert(earlier[a].entity_index < entity_count(
                        before[earlier[a].archetype_index as int],
                    ));
                    if earlier[a].archetype_index == id.archetype_index {
                        let index = id.archetype_index as int;
                        lemma_find_in_range(before, crate::flecs::archetype_name(parts, tags@), 0);
                        assert(before.len() == archetype_count);
                        assert(index == crate::flecs::find_archetype(
                            before,
                            crate::flecs::archetype_name(parts, tags@),
                            0,
                        ));
                        assert(before[index].arrays.len() > 0);
                        assert(state@[index].arrays[0] == before[index].arrays[0].push(parts[0]));
                        assert(id.entity_index == entity_count(before[index]));
                    }
                } else {
                    assert(ids@[a] == earlier[a] && ids@[b] == earlier[b]);
                }
            }
        }
        i = i + 1;
    }
    proof {
        assert(state@ == world_after(requests@, transforms@, requests@.len()));
    }
    state.finish_adding_entities();
    let mut node_to_entity_map = NodeToEntityMap::new();
    let mut i: usize = 0;
    while i < count
        invariant
            i <= count,
            count == requests@.len(),
            state.wf(),
            state.is_finished(),
            state.size() <= usize::MAX,
            state@ == world_after(requests@, transforms@, requests@.len()),
            ids@.len() == count,
            forall|j: int|
                0 <= j < count ==> {
                    &&& #[trigger] ids@[j] == temporary_id(requests@, transforms@, j)
                    &&& ids@[j].archetype_index < state@.len()
                    &&& ids@[j].entity_index < entity_count(state@[ids@[j].archetype_index as int])
                },
            forall|a: int, b: int| 0 <= a < b < count ==> #[trigger] ids@[a] != #[trigger] ids@[b],
            node_to_entity_map@ == node_map(requests@, transforms@, i as nat),
        decreases count - i,
    {
        let stable = state.create_stable_entity_ids(ids[i]);
        node_to_entity_map.insert(requests[i].node, stable);
        i = i + 1;
    }
    let mut blob: Vec<u8> = Vec::new();
    match state.write_to_buffer(&mut blob) {
        Ok(()) => {
            assert(blob@ =~= world_blob(state@));
            proof {
                assert forall|a: int, b: int| 0 <= a < b < requests@.len() implies #[trigger] stable_id(
                    requests@,
                    transforms@,
                    a,
                ) != #[trigger] stable_id(requests@, transforms@, b) by {
                    assert(ids@[a] != ids@[b]);
                    if stable_id(requests@, transforms@, a) == stable_id(requests@, transforms@, b) {
                        lemma_stable_ids_differ(
                            state@,
                            ids@[a].archetype_index as int,
                            ids@[a].entity_index as int,
                            ids@[b].archetype_index as int,
                            ids@[b].entity_index as int,
                        );
                    }
                }
            }
            Ok(EntitiesWorld { blob, node_to_entity_map })
        },
        Err(_) => Err(EntitiesError::TooLarge),
    }
}

/// The build step that compiles the entity world of a scene. It holds the
/// plan of the scene and the placement of each entity of the plan.
pub struct EntitiesWorldResource {
    pub scene: Arc<Scene>,
    pub requests: Vec<EntityRequest>,
    pub transforms: Vec<Trs>,
}

impl EntitiesWorldResource {
    pub fn new(scene: Arc<Scene>, requests: Vec<EntityRequest>, transforms: Vec<Trs>) -> (r:
        EntitiesWorldResource)
        ensures
            r.scene == scene,
            r.requests == requests,
            r.transforms == transforms,
    {
        EntitiesWorldResource { scene, requests, transforms }
    }
}

impl Resource for EntitiesWorldResource {
    type ReturnValue = Result<EntitiesWorld, EntitiesError>;

    /// The resource holds the plan of its scene, and a placement for each
    /// entity of the plan.
    open spec fn is_ready(&self) -> bool {
        &&& planned(&self.scene) == Ok::<Seq<EntityRequest>, EntitiesError>(self.requests@)
        &&& self.requests@.len() == self.transforms@.len()
    }

    /// There is a world exactly when its entities can be counted; it is the
    /// serialized form of the world in which the entities of the plan were
    /// created in order, and it maps the node of each entity to the stable
    /// id of that entity. No two entities have the same id.
    open spec fn yields(&self, value: &Result<EntitiesWorld, EntitiesError>) -> bool {
        &&& value is Ok <==> !too_many(self.requests@.len() as int) && world_fits(
            world_after(self.requests@, self.transforms@, self.requests@.len()),
        )
        &&& value matches Ok(world) ==> {
            &&& world.blob@ == world_blob(
                world_after(self.requests@, self.transforms@, self.requests@.len()),
            )
            &&& world.node_to_entity_map@ == node_map(
                self.requests@,
                self.transforms@,
                self.requests@.len(),
            )
            &&& ids_differ(self.requests@, self.transforms@)
        }
    }

    fn compile(&self, compiler: Arc<AsyncCompiler>) -> (value: Result<EntitiesWorld, EntitiesError>) {
        build_entities_world(&self.requests, &self.transforms)
    }
}

} // verus!
