//! The scene graph: the immutable description of a level that every build
//! step reads.
//!
//! A scene is a forest of nodes. A node has a local transform and may carry a
//! mesh, a camera, a light and the annotations of the physics engine. The
//! scene is loaded once; what the build steps need to know of it as a whole
//! (the order in which the nodes are walked, which meshes and materials are in
//! use, which nodes are vehicles) is worked out here.
//!
//! Numbers that the scene file holds as single-precision values (transforms,
//! colours, camera angles) are kept as their bit patterns and passed through.

use vstd::prelude::*;
use vstd::string::StringExecFns;
use crate::mesh::MeshSource;

verus! {

/// The collision shape kinds that a physics annotation can name.
#[derive(Clone, Copy, Debug, PartialEq, Eq, Structural)]
pub enum CollisionShapeKind {
    Mesh,
    Sphere,
    Convex,
    /// The scene file names a kind that is none of the above.
    Invalid,
}

/// The collision shape of a physics body.
#[derive(Clone, Copy, Debug)]
pub struct CollisionShape {
    pub kind: CollisionShapeKind,
    /// The radius of a sphere, where the scene gives one.
    pub radius: Option<u32>,
}

/// The physics annotation of a node.
#[derive(Clone, Copy, Debug)]
pub struct PhysicsBody {
    pub dynamic: bool,
    pub collision_shape: CollisionShape,
}

/// What the scene says of a node beyond the interchange format.
#[derive(Clone, Copy, Debug)]
pub struct TempestNodeExtension {
    pub physics_body: Option<PhysicsBody>,
    pub is_car: Option<bool>,
}

/// The kinds of light.
#[derive(Clone, Copy, Debug, PartialEq, Eq, Structural)]
pub enum LightKind {
    Directional,
    Point,
    Spot,
}

/// A light source.
#[derive(Clone, Copy, Debug)]
pub struct Light {
    pub kind: LightKind,
    pub color: [u32; 3],
    pub intensity: u32,
}

/// A perspective projection.
#[derive(Clone, Copy, Debug)]
pub struct Perspective {
    pub yfov: u32,
    pub aspect_ratio: Option<u32>,
    pub znear: u32,
    pub zfar: Option<u32>,
}

/// The projection of a camera.
#[derive(Clone, Copy, Debug)]
pub enum Projection {
    Perspective(Perspective),
    Orthographic,
}

/// One node of the scene.
pub struct Node {
    pub name: Option<String>,
    pub children: Vec<usize>,
    pub mesh: Option<usize>,
    pub camera: Option<Projection>,
    pub light: Option<Light>,
    pub extension: Option<TempestNodeExtension>,
    /// The local transform, a column-major four by four matrix.
    pub transform: [u32; 16],
}

/// What the scene says of a material.
#[derive(Clone, Copy, Debug)]
pub struct MaterialSource {
    /// The image of the base colour texture.
    pub base_color_texture: Option<usize>,
    /// The image of the metallic-roughness texture.
    pub metallic_roughness_texture: Option<usize>,
    pub base_color_factor: [u32; 4],
    pub metallic_factor: u32,
    pub roughness_factor: u32,
}

/// The scene file as loaded: nodes, meshes, materials, and for each scene of
/// the file its root nodes.
pub struct GltfData {
    pub nodes: Vec<Node>,
    pub meshes: Vec<MeshSource>,
    pub materials: Vec<MaterialSource>,
    pub scenes: Vec<Vec<usize>>,
    /// The number of images that the materials can refer to.
    pub image_count: usize,
}

/// The primary camera of a level: projection, position and orientation.
#[derive(Clone, Copy, Debug)]
pub struct Camera {
    pub yfov: u32,
    pub znear: u32,
    pub zfar: u32,
    pub aspect_ratio: u32,
    pub position: [u32; 3],
    pub forward: [u32; 3],
    pub up: [u32; 3],
}

/// One step of a walk through the scene: a node, and how deep below its root
/// it hangs.
#[derive(Clone, Copy, Debug, PartialEq, Eq, Structural)]
pub struct Visit {
    pub node: usize,
    pub depth: usize,
}

/// The first place of the walk, from `from` on, whose visit is not deeper
/// than `depth`; the end of the walk if there is none.
pub open spec fn skip_deeper(walk: Seq<Visit>, depth: usize, from: int) -> int
    decreases walk.len() - from,
{
    if from < 0 || from >= walk.len() {
        walk.len() as int
    } else if walk[from].depth <= depth {
        from
    } else {
        skip_deeper(walk, depth, from + 1)
    }
}

/// The place of the walk behind the subtree of the node at place `i`: the
/// first place after `i` whose visit is not deeper than that at `i`.
pub open spec fn next_after_subtree(walk: Seq<Visit>, i: int) -> int {
    skip_deeper(walk, walk[i].depth, i + 1)
}

/// The search for the end of a subtree ends behind where it starts, in the
/// walk or at its end.
pub proof fn lemma_skip_deeper(walk: Seq<Visit>, depth: usize, from: int)
    requires
        0 <= from <= walk.len(),
    ensures
        from <= skip_deeper(walk, depth, from) <= walk.len(),
    decreases walk.len() - from,
{
    if from < walk.len() && walk[from].depth > depth {
        lemma_skip_deeper(walk, depth, from + 1);
    }
}

/// Finds the place of the walk behind the subtree of the node at place `i`.
pub fn skip_subtree(walk: &Vec<Visit>, i: usize) -> (next: usize)
    requires
        i < walk@.len(),
    ensures
        next == next_after_subtree(walk@, i as int),
        i < next <= walk@.len(),
{
    let len: usize = walk.len();
    let depth: usize = walk[i].depth;
    let mut j: usize = i + 1;
    while j < walk.len() && walk[j].depth > depth
        invariant
            i < j <= walk@.len(),
            depth == walk@[i as int].depth,
            next_after_subtree(walk@, i as int) == skip_deeper(walk@, depth, j as int),
        decreases walk@.len() - j,
    {
        j = j + 1;
    }
    j
}

/// Every item of the list is below the one after it.
pub open spec fn strictly_ascending(s: Seq<usize>) -> bool {
    forall|i: int, j: int| 0 <= i < j < s.len() ==> s[i] < s[j]
}

/// Every index of the list is below `bound`.
pub open spec fn all_below(s: Seq<usize>, bound: int) -> bool {
    forall|i: int| 0 <= i < s.len() ==> (#[trigger] s[i]) < bound
}

/// Inserts `x` at its place into an ascending list, unless it is there.
pub fn insert_sorted(list: &mut Vec<usize>, x: usize)
    requires
        strictly_ascending(old(list)@),
    ensures
        strictly_ascending(final(list)@),
        forall|y: usize|
            #![trigger final(list)@.contains(y)]
            #![trigger old(list)@.contains(y)]
            final(list)@.contains(y) <==> (old(list)@.contains(y) || y == x),
{
    let mut p: usize = 0;
    while p < list.len() && list[p] < x
        invariant
            p <= list@.len(),
            list@ == old(list)@,
            forall|i: int| 0 <= i < p ==> list@[i] < x,
        decreases list@.len() - p,
    {
        p = p + 1;
    }
    if p < list.len() && list[p] == x {
        assert(list@.contains(x));
        return ;
    }
    list.insert(p, x);
    proof {
        let before = old(list)@;
        let after = list@;
        assert forall|y: usize| after.contains(y) <==> (before.contains(y) || y == x) by {
            if after.contains(y) {
                let i = choose|i: int| 0 <= i < after.len() && after[i] == y;
                if i < p {
                    assert(before[i] == y);
                } else if i > p {
                    assert(before[i - 1] == y);
                }
            }
            if before.contains(y) {
                let i = choose|i: int| 0 <= i < before.len() && before[i] == y;
                if i < p {
                    assert(after[i] == y);
                } else {
                    assert(after[i + 1] == y);
                }
            }
            if y == x {
                assert(after[p as int] == x);
            }
        }
        assert forall|i: int, j: int| 0 <= i < j < after.len() implies after[i] < after[j] by {
            if j < p {
            } else if j == p {
            } else if i < p {
                assert(after[j] == before[j - 1]);
                if j - 1 > p {
                    assert(before[p as int] < before[j - 1]);
                }
            } else if i == p {
                assert(after[j] == before[j - 1]);
                if j - 1 > p {
                    assert(before[p as int] < before[j - 1]);
                }
            } else {
                assert(after[i] == before[i - 1]);
                assert(after[j] == before[j - 1]);
            }
        }
    }
}

impl GltfData {
    /// Every index in the scene names something that exists: the children
    /// and the roots name nodes, the nodes name meshes, the primitives name
    /// materials.
    pub open spec fn wf(&self) -> bool {
        &&& forall|n: int|
            0 <= n < self.nodes@.len() ==> all_below(
                (#[trigger] self.nodes@[n]).children@,
                self.nodes@.len() as int,
            )
        &&& forall|n: int|
            0 <= n < self.nodes@.len() ==> ((#[trigger] self.nodes@[n]).mesh matches Some(m)
                ==> m < self.meshes@.len())
        &&& forall|s: int|
            0 <= s < self.scenes@.len() ==> all_below(
                #[trigger] self.scenes@[s]@,
                self.nodes@.len() as int,
            )
        &&& forall|m: int, p: int|
            #![trigger self.meshes@[m].primitives@[p]]
            0 <= m < self.meshes@.len() && 0 <= p < self.meshes@[m].primitives@.len() ==> (
            self.meshes@[m].primitives@[p].material_index matches Some(k) ==> k
                < self.materials@.len())
    }

    /// The name of a node; a node without one is called "Unnamed node".
    pub open spec fn spec_node_name(&self, index: int) -> Seq<char> {
        match self.nodes@[index].name {
            Some(name) => name@,
            None => "Unnamed node"@,
        }
    }

    pub fn node_name(&self, index: usize) -> (name: String)
        requires
            index < self.nodes@.len(),
        ensures
            name@ == self.spec_node_name(index as int),
    {
        match &self.nodes[index].name {
            Some(name) => name.clone(),
            None => String::from_str("Unnamed node"),
        }
    }

    pub fn node_mesh_index(&self, index: usize) -> (mesh: Option<usize>)
        requires
            index < self.nodes@.len(),
        ensures
            mesh == self.nodes@[index as int].mesh,
    {
        self.nodes[index].mesh
    }

    pub fn node_transform(&self, index: usize) -> (transform: [u32; 16])
        requires
            index < self.nodes@.len(),
        ensures
            transform == self.nodes@[index as int].transform,
    {
        self.nodes[index].transform
    }

    /// The node is marked as a vehicle.
    pub open spec fn spec_is_car(&self, index: int) -> bool {
        match self.nodes@[index].extension {
            Some(extension) => extension.is_car == Some(true),
            None => false,
        }
    }

    pub fn is_car(&self, index: usize) -> (b: bool)
        requires
            index < self.nodes@.len(),
        ensures
            b == self.spec_is_car(index as int),
    {
        match self.nodes[index].extension {
            Some(extension) => match extension.is_car {
                Some(is_car) => is_car,
                None => false,
            },
            None => false,
        }
    }

    pub fn tempest_extension(&self, index: usize) -> (extension: TempestNodeExtension)
        requires
            index < self.nodes@.len(),
            self.nodes@[index as int].extension is Some,
        ensures
            Some(extension) == self.nodes@[index as int].extension,
    {
        match self.nodes[index].extension {
            Some(extension) => extension,
            None => TempestNodeExtension { physics_body: None, is_car: None },
        }
    }

    pub fn light(&self, index: usize) -> (light: Option<Light>)
        requires
            index < self.nodes@.len(),
        ensures
            light == self.nodes@[index as int].light,
    {
        self.nodes[index].light
    }

    pub fn material(&self, index: usize) -> (material: MaterialSource)
        requires
            index < self.materials@.len(),
        ensures
            material == self.materials@[index as int],
    {
        self.materials[index]
    }

    pub fn mesh_primitive_count(&self, index: usize) -> (count: usize)
        requires
            index < self.meshes@.len(),
        ensures
            count == self.meshes@[index as int].primitives@.len(),
    {
        self.meshes[index].primitives.len()
    }

    pub fn mesh_material_index(&self, mesh_index: usize, prim_index: usize) -> (material: Option<usize>)
        requires
            mesh_index < self.meshes@.len(),
            prim_index < self.meshes@[mesh_index as int].primitives@.len(),
        ensures
            material == self.meshes@[mesh_index as int].primitives@[prim_index as int].material_index,
    {
        self.meshes[mesh_index].primitives[prim_index].material_index
    }

    pub fn node_children(&self, index: usize) -> (children: &Vec<usize>)
        requires
            index < self.nodes@.len(),
        ensures
            children@ == self.nodes@[index as int].children@,
    {
        &self.nodes[index].children
    }

    /// The index buffer of a primitive, if it has one.
    pub fn mesh_indices(&self, mesh_index: usize, prim_index: usize) -> (indices: Option<&Vec<u32>>)
        requires
            mesh_index < self.meshes@.len(),
            prim_index < self.meshes@[mesh_index as int].primitives@.len(),
        ensures
            match self.meshes@[mesh_index as int].primitives@[prim_index as int].indices {
                Some(held) => indices == Some(&held),
                None => indices is None,
            },
    {
        self.meshes[mesh_index].primitives[prim_index].indices.as_ref()
    }

    /// The positions of a primitive, if it has any.
    pub fn mesh_positions(&self, mesh_index: usize, prim_index: usize) -> (positions: Option<
        &Vec<[u32; 3]>,
    >)
        requires
            mesh_index < self.meshes@.len(),
            prim_index < self.meshes@[mesh_index as int].primitives@.len(),
        ensures
            match self.meshes@[mesh_index as int].primitives@[prim_index as int].positions {
                Some(held) => positions == Some(&held),
                None => positions is None,
            },
    {
        self.meshes[mesh_index].primitives[prim_index].positions.as_ref()
    }

    /// The normals of a primitive, if it has any.
    pub fn mesh_normals(&self, mesh_index: usize, prim_index: usize) -> (normals: Option<
        &Vec<[u32; 3]>,
    >)
        requires
            mesh_index < self.meshes@.len(),
            prim_index < self.meshes@[mesh_index as int].primitives@.len(),
        ensures
            match self.meshes@[mesh_index as int].primitives@[prim_index as int].normals {
                Some(held) => normals == Some(&held),
                None => normals is None,
            },
    {
        self.meshes[mesh_index].primitives[prim_index].normals.as_ref()
    }

    /// The texture coordinates of a primitive, if it has any.
    pub fn mesh_uvs(&self, mesh_index: usize, prim_index: usize) -> (uvs: Option<&Vec<[u32; 2]>>)
        requires
            mesh_index < self.meshes@.len(),
            prim_index < self.meshes@[mesh_index as int].primitives@.len(),
        ensures
            match self.meshes@[mesh_index as int].primitives@[prim_index as int].uvs {
                Some(held) => uvs == Some(&held),
                None => uvs is None,
            },
    {
        self.meshes[mesh_index].primitives[prim_index].uvs.as_ref()
    }

    /// The root nodes of one scene of the file.
    pub fn gather_root_node_indices(&self, scene_index: usize) -> (roots: Vec<usize>)
        requires
            scene_index < self.scenes@.len(),
        ensures
            roots@ == self.scenes@[scene_index as int]@,
    {
        let source = &self.scenes[scene_index];
        let mut roots: Vec<usize> = Vec::new();
        let mut i: usize = 0;
        while i < source.len()
            invariant
                i <= source@.len(),
                roots@ == source@.take(i as int),
            decreases source@.len() - i,
        {
            roots.push(source[i]);
            assert(source@.take(i + 1) =~= source@.take(i as int).push(source@[i as int]));
            i = i + 1;
        }
        assert(source@.take(source@.len() as int) =~= source@);
        roots
    }

    pub fn check_indices(list: &Vec<usize>, bound: usize) -> (b: bool)
        ensures
            b == all_below(list@, bound as int),
    {
        let mut i: usize = 0;
        while i < list.len()
            invariant
                i <= list@.len(),
                forall|j: int| 0 <= j < i ==> (#[trigger] list@[j]) < bound,
            decreases list@.len() - i,
        {
            if list[i] >= bound {
                return false;
            }
            i = i + 1;
        }
        true
    }

    fn check_nodes(&self) -> (b: bool)
        ensures
            b == {
                &&& forall|n: int|
                    0 <= n < self.nodes@.len() ==> all_below(
                        (#[trigger] self.nodes@[n]).children@,
                        self.nodes@.len() as int,
                    )
                &&& forall|n: int|
                    0 <= n < self.nodes@.len() ==> ((#[trigger] self.nodes@[n]).mesh matches Some(
                        m,
                    ) ==> m < self.meshes@.len())
            },
    {
        let mut n: usize = 0;
        while n < self.nodes.len()
            invariant
                n <= self.nodes@.len(),
                forall|i: int|
                    0 <= i < n ==> all_below(
                        (#[trigger] self.nodes@[i]).children@,
                        self.nodes@.len() as int,
                    ),
                forall|i: int|
                    0 <= i < n ==> ((#[trigger] self.nodes@[i]).mesh matches Some(m) ==> m
                        < self.meshes@.len()),
            decreases self.nodes@.len() - n,
        {
            if !Self::check_indices(&self.nodes[n].children, self.nodes.len()) {
                return false;
            }
            match self.nodes[n].mesh {
                Some(m) => {
                    if m >= self.meshes.len() {
                        return false;
                    }
                },
                None => {},
            }
            n = n + 1;
        }
        true
    }

    fn check_scenes(&self) -> (b: bool)
        ensures
            b == (forall|s: int|
                0 <= s < self.scenes@.len() ==> all_below(
                    #[trigger] self.scenes@[s]@,
                    self.nodes@.len() as int,
                )),
    {
        let mut s: usize = 0;
        while s < self.scenes.len()
            invariant
                s <= self.scenes@.len(),
                forall|i: int|
                    0 <= i < s ==> all_below(#[trigger] self.scenes@[i]@, self.nodes@.len() as int),
            decreases self.scenes@.len() - s,
        {
            if !Self::check_indices(&self.scenes[s], self.nodes.len()) {
                return false;
            }
            s = s + 1;
        }
        true
    }

    fn check_materials(&self) -> (b: bool)
        ensures
            b == (forall|m: int, p: int|
                #![trigger self.meshes@[m].primitives@[p]]
                0 <= m < self.meshes@.len() && 0 <= p < self.meshes@[m].primitives@.len() ==> (
                self.meshes@[m].primitives@[p].material_index matches Some(k) ==> k
                    < self.materials@.len())),
    {
        let mut m: usize = 0;
        while m < self.meshes.len()
            invariant
                m <= self.meshes@.len(),
                forall|i: int, p: int|
                    #![trigger self.meshes@[i].primitives@[p]]
                    0 <= i < m && 0 <= p < self.meshes@[i].primitives@.len() ==> (
                    self.meshes@[i].primitives@[p].material_index matches Some(k) ==> k
                        < self.materials@.len()),
            decreases self.meshes@.len() - m,
        {
            let mut p: usize = 0;
            while p < self.meshes[m].primitives.len()
                invariant
                    m < self.meshes@.len(),
                    p <= self.meshes@[m as int].primitives@.len(),
                    forall|i: int, q: int|
                        #![trigger self.meshes@[i].primitives@[q]]
                        0 <= i < m && 0 <= q < self.meshes@[i].primitives@.len() ==> (
                        self.meshes@[i].primitives@[q].material_index matches Some(k) ==> k
                            < self.materials@.len()),
                    forall|q: int|
                        0 <= q < p ==> ((
                        #[trigger] self.meshes@[m as int].primitives@[q]).material_index matches Some(
                            k,
                        ) ==> k < self.materials@.len()),
                decreases self.meshes@[m as int].primitives@.len() - p,
            {
                match self.meshes[m].primitives[p].material_index {
                    Some(k) => {
                        if k >= self.materials.len() {
                            return false;
                        }
                    },
                    None => {},
                }
                p = p + 1;
            }
            m = m + 1;
        }
        true
    }

    /// Checks that every index in the scene names something that exists.
    pub fn validate(&self) -> (b: bool)
        ensures
            b == self.wf(),
    {
        self.check_nodes() && self.check_scenes() && self.check_materials()
    }
}

/// The walk through the subtree of `node`, in the order a depth-first walk
/// meets the nodes: the node itself, then the subtrees of its children in
/// turn. `fuel` bounds the depth; the walk is `None` if it is used up, which
/// it is only if a node hangs below itself.
pub open spec fn walk_of(nodes: Seq<Node>, node: int, depth: nat, fuel: nat) -> Option<Seq<Visit>>
    decreases fuel, 0nat,
{
    if fuel == 0 || node < 0 || node >= nodes.len() {
        None
    } else {
        match walk_of_children(
            nodes,
            nodes[node].children@,
            nodes[node].children@.len(),
            depth + 1,
            (fuel - 1) as nat,
        ) {
            None => None,
            Some(below) => Some(seq![Visit { node: node as usize, depth: depth as usize }] + below),
        }
    }
}

/// The walks through the subtrees of the first `k` of the given nodes, one
/// after the other.
pub open spec fn walk_of_children(
    nodes: Seq<Node>,
    children: Seq<usize>,
    k: nat,
    depth: nat,
    fuel: nat,
) -> Option<Seq<Visit>>
    decreases fuel, k,
{
    if k == 0 || k > children.len() {
        Some(Seq::empty())
    } else {
        match walk_of_children(nodes, children, (k - 1) as nat, depth, fuel) {
            None => None,
            Some(before) => match walk_of(nodes, children[k - 1] as int, depth, fuel) {
                None => None,
                Some(last) => Some(before + last),
            },
        }
    }
}

/// Every visit of a walk names a node.
pub open spec fn visits_in_range(walk: Seq<Visit>, node_count: int) -> bool {
    forall|i: int| 0 <= i < walk.len() ==> (#[trigger] walk[i]).node < node_count
}

/// A walk visits only nodes that exist.
pub proof fn lemma_walk_in_range(nodes: Seq<Node>, node: int, depth: nat, fuel: nat)
    ensures
        walk_of(nodes, node, depth, fuel) matches Some(walk) ==> visits_in_range(
            walk,
            nodes.len() as int,
        ),
    decreases fuel, 0nat,
{
    if fuel > 0 && 0 <= node < nodes.len() {
        lemma_walk_children_in_range(
            nodes,
            nodes[node].children@,
            nodes[node].children@.len(),
            depth + 1,
            (fuel - 1) as nat,
        );
        if walk_of(nodes, node, depth, fuel) is Some {
            let walk = walk_of(nodes, node, depth, fuel)->0;
            let below = walk_of_children(
                nodes,
                nodes[node].children@,
                nodes[node].children@.len(),
                depth + 1,
                (fuel - 1) as nat,
            )->0;
            assert forall|i: int| 0 <= i < walk.len() implies (#[trigger] walk[i]).node
                < nodes.len() by {
                if i > 0 {
                    assert(walk[i] == below[i - 1]);
                }
            }
        }
    }
}

/// The walks through children visit only nodes that exist.
pub proof fn lemma_walk_children_in_range(
    nodes: Seq<Node>,
    children: Seq<usize>,
    k: nat,
    depth: nat,
    fuel: nat,
)
    ensures
        walk_of_children(nodes, children, k, depth, fuel) matches Some(walk) ==> visits_in_range(
            walk,
            nodes.len() as int,
        ),
    decreases fuel, k,
{
    if k > 0 && k <= children.len() {
        lemma_walk_children_in_range(nodes, children, (k - 1) as nat, depth, fuel);
        lemma_walk_in_range(nodes, children[k - 1] as int, depth, fuel);
        if walk_of_children(nodes, children, k, depth, fuel) is Some {
            let walk = walk_of_children(nodes, children, k, depth, fuel)->0;
            let before = walk_of_children(nodes, children, (k - 1) as nat, depth, fuel)->0;
            let last = walk_of(nodes, children[k - 1] as int, depth, fuel)->0;
            assert forall|i: int| 0 <= i < walk.len() implies (#[trigger] walk[i]).node
                < nodes.len() by {
                if i < before.len() {
                    assert(walk[i] == before[i]);
                } else {
                    assert(walk[i] == last[i - before.len()]);
                }
            }
        }
    }
}

/// Walks through the subtree of a node and appends the visits to `out`.
/// Returns whether the walk came to its end; if it did not, `out` holds
/// visits that are of no use.
#[verifier::loop_isolation(false)]
pub fn walk_nodes(gltf: &GltfData, node_index: usize, depth: usize, fuel: usize, out: &mut Vec<Visit>) -> (done:
    bool)
    requires
        depth + fuel <= usize::MAX,
    ensures
        done == walk_of(gltf.nodes@, node_index as int, depth as nat, fuel as nat).is_some(),
        done ==> final(out)@ == old(out)@ + walk_of(
            gltf.nodes@,
            node_index as int,
            depth as nat,
            fuel as nat,
        )->0,
    decreases fuel, 0nat,
{
    if fuel == 0 || node_index >= gltf.nodes.len() {
        return false;
    }
    out.push(Visit { node: node_index, depth });
    let children = &gltf.nodes[node_index].children;
    let ghost head = out@;
    let mut k: usize = 0;
    while k < children.len()
        invariant
            k <= children@.len(),
            walk_of_children(gltf.nodes@, children@, k as nat, (depth + 1) as nat, (fuel - 1) as nat)
                is Some,
            out@ == head + walk_of_children(
                gltf.nodes@,
                children@,
                k as nat,
                (depth + 1) as nat,
                (fuel - 1) as nat,
            )->0,
        decreases children@.len() - k,
    {
        let ghost before = out@;
        if !walk_nodes(gltf, children[k], depth + 1, fuel - 1, out) {
            proof {
                lemma_walk_children_fail(
                    gltf.nodes@,
                    children@,
                    (k + 1) as nat,
                    children@.len(),
                    (depth + 1) as nat,
                    (fuel - 1) as nat,
                );
            }
            return false;
        }
        assert(out@ =~= head + walk_of_children(
            gltf.nodes@,
            children@,
            (k + 1) as nat,
            (depth + 1) as nat,
            (fuel - 1) as nat,
        )->0);
        k = k + 1;
    }
    assert(out@ =~= old(out)@ + walk_of(
        gltf.nodes@,
        node_index as int,
        depth as nat,
        fuel as nat,
    )->0);
    true
}

/// Once the walk through some children has failed, the walk through more of
/// them fails too.
pub proof fn lemma_walk_children_fail(
    nodes: Seq<Node>,
    children: Seq<usize>,
    k: nat,
    n: nat,
    depth: nat,
    fuel: nat,
)
    requires
        k <= n <= children.len(),
        walk_of_children(nodes, children, k, depth, fuel) is None,
    ensures
        walk_of_children(nodes, children, n, depth, fuel) is None,
    decreases n - k,
{
    if k < n {
        lemma_walk_children_fail(nodes, children, k, (n - 1) as nat, depth, fuel);
    }
}

/// The walk through a whole scene: the walks through the subtrees of its
/// root nodes, one after the other. No walk is deeper than the scene has
/// nodes.
pub open spec fn walk_of_roots(nodes: Seq<Node>, roots: Seq<usize>) -> Option<Seq<Visit>> {
    walk_of_children(nodes, roots, roots.len(), 0, nodes.len())
}

/// Walks through the subtrees of the given root nodes in turn. The walk is
/// `None` exactly when a node hangs below itself or a root is no node.
#[verifier::loop_isolation(false)]
pub fn walk_roots(gltf: &GltfData, roots: &Vec<usize>) -> (walk: Option<Vec<Visit>>)
    ensures
        match walk {
            Some(visits) => walk_of_roots(gltf.nodes@, roots@) == Some(visits@) && visits_in_range(
                visits@,
                gltf.nodes@.len() as int,
            ),
            None => walk_of_roots(gltf.nodes@, roots@) is None,
        },
{
    let fuel: usize = gltf.nodes.len();
    let mut out: Vec<Visit> = Vec::new();
    let mut k: usize = 0;
    while k < roots.len()
        invariant
            k <= roots@.len(),
            walk_of_children(gltf.nodes@, roots@, k as nat, 0, fuel as nat) == Some(out@),
        decreases roots@.len() - k,
    {
        let ghost before = out@;
        if !walk_nodes(gltf, roots[k], 0, fuel, &mut out) {
            proof {
                lemma_walk_children_fail(
                    gltf.nodes@,
                    roots@,
                    (k + 1) as nat,
                    roots@.len(),
                    0,
                    fuel as nat,
                );
            }
            return None;
        }
        k = k + 1;
    }
    proof {
        lemma_walk_children_in_range(gltf.nodes@, roots@, roots@.len(), 0, fuel as nat);
    }
    Some(out)
}

/// Some visit of the walk is of a node that carries the mesh.
pub open spec fn mesh_in_use(nodes: Seq<Node>, walk: Seq<Visit>, mesh: usize) -> bool {
    exists|i: int| 0 <= i < walk.len() && nodes[(#[trigger] walk[i]).node as int].mesh == Some(mesh)
}

/// Some primitive of one of the meshes has the material.
pub open spec fn material_in_use(
    sources: Seq<MeshSource>,
    meshes: Seq<usize>,
    material: usize,
) -> bool {
    exists|m: int, p: int|
        #![trigger sources[meshes[m] as int].primitives@[p]]
        0 <= m < meshes.len() && 0 <= p < sources[meshes[m] as int].primitives@.len()
            && sources[meshes[m] as int].primitives@[p].material_index == Some(material)
}

/// Some visit of the walk is of the node, and the node is a vehicle.
pub open spec fn car_in_walk(gltf: &GltfData, walk: Seq<Visit>, node: usize) -> bool {
    exists|i: int| 0 <= i < walk.len() && (#[trigger] walk[i]).node == node && gltf.spec_is_car(node as int)
}

/// The meshes that the visited nodes carry, ascending and each once.
pub fn gather_meshes(gltf: &GltfData, walk: &Vec<Visit>) -> (meshes: Vec<usize>)
    requires
        visits_in_range(walk@, gltf.nodes@.len() as int),
    ensures
        strictly_ascending(meshes@),
        forall|x: usize| meshes@.contains(x) <==> mesh_in_use(gltf.nodes@, walk@, x),
{
    let mut meshes: Vec<usize> = Vec::new();
    let mut i: usize = 0;
    while i < walk.len()
        invariant
            i <= walk@.len(),
            visits_in_range(walk@, gltf.nodes@.len() as int),
            strictly_ascending(meshes@),
            forall|x: usize| meshes@.contains(x) <==> mesh_in_use(gltf.nodes@, walk@.take(i as int), x),
        decreases walk@.len() - i,
    {
        let ghost before = meshes@;
        let ghost seen = walk@.take(i as int);
        let ghost next = walk@.take(i + 1);
        let found = gltf.nodes[walk[i].node].mesh;
        match found {
            Some(mesh) => {
                insert_sorted(&mut meshes, mesh);
            },
            None => {},
        }
        proof {
            assert(next.len() == i + 1);
            assert forall|x: usize| meshes@.contains(x) <==> mesh_in_use(gltf.nodes@, next, x) by {
                if mesh_in_use(gltf.nodes@, next, x) {
                    let j = choose|j: int|
                        0 <= j < next.len() && gltf.nodes@[(#[trigger] next[j]).node as int].mesh
                            == Some(x);
                    if j < i {
                        assert(seen[j] == next[j]);
                        assert(mesh_in_use(gltf.nodes@, seen, x));
                    }
                }
                if mesh_in_use(gltf.nodes@, seen, x) {
                    let j = choose|j: int|
                        0 <= j < seen.len() && gltf.nodes@[(#[trigger] seen[j]).node as int].mesh
                            == Some(x);
                    assert(next[j] == seen[j]);
                }
                if found == Some(x) {
                    assert(next[i as int] == walk@[i as int]);
                }
            }
        }
        i = i + 1;
    }
    assert(walk@.take(walk@.len() as int) =~= walk@);
    meshes
}

/// The visited nodes that are vehicles, ascending and each once.
pub fn gather_cars(gltf: &GltfData, walk: &Vec<Visit>) -> (cars: Vec<usize>)
    requires
        visits_in_range(walk@, gltf.nodes@.len() as int),
    ensures
        strictly_ascending(cars@),
        forall|x: usize| cars@.contains(x) <==> car_in_walk(gltf, walk@, x),
{
    let mut cars: Vec<usize> = Vec::new();
    let mut i: usize = 0;
    while i < walk.len()
        invariant
            i <= walk@.len(),
            visits_in_range(walk@, gltf.nodes@.len() as int),
            strictly_ascending(cars@),
            forall|x: usize| cars@.contains(x) <==> car_in_walk(gltf, walk@.take(i as int), x),
        decreases walk@.len() - i,
    {
        let ghost seen = walk@.take(i as int);
        let ghost next = walk@.take(i + 1);
        let node: usize = walk[i].node;
        let is_car = gltf.is_car(node);
        if is_car {
            insert_sorted(&mut cars, node);
        }
        proof {
            assert(next.len() == i + 1);
            assert forall|x: usize| cars@.contains(x) <==> car_in_walk(gltf, next, x) by {
                if car_in_walk(gltf, next, x) {
                    let j = choose|j: int|
                        0 <= j < next.len() && (#[trigger] next[j]).node == x && gltf.spec_is_car(
                            x as int,
                        );
                    if j < i {
                        assert(seen[j] == next[j]);
                        assert(car_in_walk(gltf, seen, x));
                    }
                }
                if car_in_walk(gltf, seen, x) {
                    let j = choose|j: int|
                        0 <= j < seen.len() && (#[trigger] seen[j]).node == x && gltf.spec_is_car(
                            x as int,
                        );
                    assert(next[j] == seen[j]);
                }
                if is_car && x == node {
                    assert(next[i as int] == walk@[i as int]);
                }
            }
        }
        i = i + 1;
    }
    assert(walk@.take(walk@.len() as int) =~= walk@);
    cars
}

/// One of the first `count` primitives has the material.
pub open spec fn has_material(
    primitives: Seq<crate::mesh::PrimitiveSource>,
    count: int,
    material: usize,
) -> bool {
    exists|q: int| 0 <= q < count && (#[trigger] primitives[q]).material_index == Some(material)
}

/// The materials that the primitives of the given meshes have, ascending and
/// each once.
pub fn gather_materials(gltf: &GltfData, meshes: &Vec<usize>) -> (materials: Vec<usize>)
    requires
        all_below(meshes@, gltf.meshes@.len() as int),
    ensures
        strictly_ascending(materials@),
        forall|x: usize| materials@.contains(x) <==> material_in_use(gltf.meshes@, meshes@, x),
{
    let mut materials: Vec<usize> = Vec::new();
    let mut m: usize = 0;
    while m < meshes.len()
        invariant
            m <= meshes@.len(),
            all_below(meshes@, gltf.meshes@.len() as int),
            strictly_ascending(materials@),
            forall|x: usize|
                materials@.contains(x) <==> material_in_use(gltf.meshes@, meshes@.take(m as int), x),
        decreases meshes@.len() - m,
    {
        let ghost seen = meshes@.take(m as int);
        let ghost next = meshes@.take(m + 1);
        let source = &gltf.meshes[meshes[m]];
        let ghost start = materials@;
        let mut p: usize = 0;
        while p < source.primitives.len()
            invariant
                p <= source.primitives@.len(),
                strictly_ascending(materials@),
                forall|x: usize|
                    #![trigger materials@.contains(x)]
                    materials@.contains(x) <==> (start.contains(x) || has_material(
                        source.primitives@,
                        p as int,
                        x,
                    )),
            decreases source.primitives@.len() - p,
        {
            let found = source.primitives[p].material_index;
            let ghost before = materials@;
            match found {
                Some(material) => {
                    insert_sorted(&mut materials, material);
                },
                None => {},
            }
            proof {
                assert forall|x: usize|
                    #![trigger materials@.contains(x)]
                    materials@.contains(x) <==> (start.contains(x) || has_material(
                        source.primitives@,
                        p + 1,
                        x,
                    )) by {
                    let now = has_material(source.primitives@, p + 1, x);
                    let earlier = has_material(source.primitives@, p as int, x);
                    assert(before.contains(x) <==> (start.contains(x) || earlier));
                    assert(materials@.contains(x) <==> (before.contains(x) || found == Some(x)));
                    if earlier {
                        let q = choose|q: int|
                            0 <= q < p && (#[trigger] source.primitives@[q]).material_index == Some(
                                x,
                            );
                        assert(source.primitives@[q].material_index == Some(x));
                        assert(now);
                    }
                    if found == Some(x) {
                        assert(source.primitives@[p as int].material_index == Some(x));
                        assert(now);
                    }
                    if now {
                        let q = choose|q: int|
                            0 <= q < p + 1 && (
                            #[trigger] source.primitives@[q]).material_index == Some(x);
                        if q < p {
                            assert(source.primitives@[q].material_index == Some(x));
                            assert(earlier);
                        } else {
                            assert(found == Some(x));
                        }
                    }
                }
            }
            p = p + 1;
        }
        proof {
            assert(next.len() == m + 1);
            assert(next[m as int] == meshes@[m as int]);
            assert forall|x: usize|
                materials@.contains(x) <==> material_in_use(gltf.meshes@, next, x) by {
                if material_in_use(gltf.meshes@, next, x) {
                    let (a, b) = choose|a: int, b: int|
                        #![trigger gltf.meshes@[next[a] as int].primitives@[b]]
                        0 <= a < next.len() && 0 <= b < gltf.meshes@[next[a] as int].primitives@.len()
                            && gltf.meshes@[next[a] as int].primitives@[b].material_index == Some(
                            x,
                        );
                    if a < m {
                        assert(seen[a] == next[a]);
                        assert(gltf.meshes@[seen[a] as int].primitives@[b].material_index == Some(
                            x,
                        ));
                        assert(material_in_use(gltf.meshes@, seen, x));
                    } else {
                        assert(source.primitives@[b].material_index == Some(x));
                    }
                }
                if material_in_use(gltf.meshes@, seen, x) {
                    let (a, b) = choose|a: int, b: int|
                        #![trigger gltf.meshes@[seen[a] as int].primitives@[b]]
                        0 <= a < seen.len() && 0 <= b < gltf.meshes@[seen[a] as int].primitives@.len()
                            && gltf.meshes@[seen[a] as int].primitives@[b].material_index == Some(
                            x,
                        );
                    assert(next[a] == seen[a]);
                    assert(gltf.meshes@[next[a] as int].primitives@[b].material_index == Some(x));
                }
                if has_material(source.primitives@, source.primitives@.len() as int, x) {
                    let q = choose|q: int|
                        0 <= q < source.primitives@.len() && (
                        #[trigger] source.primitives@[q]).material_index == Some(x);
                    assert(gltf.meshes@[next[m as int] as int].primitives@[q].material_index
                        == Some(x));
                }
            }
        }
        m = m + 1;
    }
    assert(meshes@.take(meshes@.len() as int) =~= meshes@);
    materials
}

/// The bit pattern of the number one.
pub const ONE: u32 = 0x3F80_0000;

/// The vertical field of view of the camera of a scene without camera: one.
pub const DEFAULT_YFOV: u32 = 0x3F80_0000;

/// The near plane of the camera of a scene without camera: a tenth.
pub const DEFAULT_ZNEAR: u32 = 0x3DCC_CCCD;

/// The far plane of a camera that has none: a thousand.
pub const DEFAULT_ZFAR: u32 = 0x447A_0000;

/// The aspect ratio of a camera that has none: sixteen to nine.
pub const DEFAULT_ASPECT_RATIO: u32 = 0x3FE3_8E39;

/// The node carries a camera with a perspective projection.
pub open spec fn perspective_of(node: Node) -> Option<Perspective> {
    match node.camera {
        Some(Projection::Perspective(perspective)) => Some(perspective),
        _ => None,
    }
}

/// The place in the walk of the first visit, from `from` on, of a node with
/// a perspective camera; the length of the walk if there is none.
pub open spec fn first_camera_from(nodes: Seq<Node>, walk: Seq<Visit>, from: int) -> int
    decreases walk.len() - from,
{
    if from < 0 || from >= walk.len() {
        walk.len() as int
    } else if perspective_of(nodes[walk[from].node as int]) is Some {
        from
    } else {
        first_camera_from(nodes, walk, from + 1)
    }
}

impl Camera {
    /// The camera of a scene without camera.
    pub fn default_camera() -> (camera: Camera)
        ensures
            camera.yfov == DEFAULT_YFOV,
            camera.znear == DEFAULT_ZNEAR,
            camera.zfar == DEFAULT_ZFAR,
            camera.aspect_ratio == DEFAULT_ASPECT_RATIO,
            camera.position@ == seq![0u32, 0u32, 0u32],
            camera.forward@ == seq![0u32, 0u32, 0u32],
            camera.up@ == seq![0u32, 0u32, 0u32],
    {
        let camera = Camera {
            yfov: DEFAULT_YFOV,
            znear: DEFAULT_ZNEAR,
            zfar: DEFAULT_ZFAR,
            aspect_ratio: DEFAULT_ASPECT_RATIO,
            position: [0, 0, 0],
            forward: [0, 0, 0],
            up: [0, 0, 0],
        };
        assert(camera.position@ =~= seq![0u32, 0u32, 0u32]);
        assert(camera.forward@ =~= seq![0u32, 0u32, 0u32]);
        assert(camera.up@ =~= seq![0u32, 0u32, 0u32]);
        camera
    }

    /// The camera for a perspective projection of the scene and the place
    /// and orientation that were worked out of the transform of its node. A
    /// projection without aspect ratio gets sixteen to nine, one without far
    /// plane a thousand.
    pub fn from_perspective(perspective: &Perspective, position: [u32; 3], forward: [u32; 3], up: [u32; 3]) -> (camera:
        Camera)
        ensures
            camera.yfov == perspective.yfov,
            camera.znear == perspective.znear,
            camera.zfar == match perspective.zfar {
                Some(zfar) => zfar,
                None => DEFAULT_ZFAR,
            },
            camera.aspect_ratio == match perspective.aspect_ratio {
                Some(ratio) => ratio,
                None => DEFAULT_ASPECT_RATIO,
            },
            camera.position == position,
            camera.forward == forward,
            camera.up == up,
    {
        Camera {
            yfov: perspective.yfov,
            znear: perspective.znear,
            zfar: match perspective.zfar {
                Some(zfar) => zfar,
                None => DEFAULT_ZFAR,
            },
            aspect_ratio: match perspective.aspect_ratio {
                Some(ratio) => ratio,
                None => DEFAULT_ASPECT_RATIO,
            },
            position,
            forward,
            up,
        }
    }

    /// The thirteen words of the camera as a level stores it.
    pub open spec fn words(&self) -> Seq<u32> {
        seq![
            self.yfov,
            self.znear,
            self.zfar,
            self.aspect_ratio,
            self.position[0],
            self.position[1],
            self.position[2],
            self.forward[0],
            self.forward[1],
            self.forward[2],
            self.up[0],
            self.up[1],
            self.up[2],
        ]
    }

    pub fn to_words(&self) -> (words: Vec<u32>)
        ensures
            words@ == self.words(),
    {
        let mut words: Vec<u32> = Vec::new();
        words.push(self.yfov);
        words.push(self.znear);
        words.push(self.zfar);
        words.push(self.aspect_ratio);
        words.push(self.position[0]);
        words.push(self.position[1]);
        words.push(self.position[2]);
        words.push(self.forward[0]);
        words.push(self.forward[1]);
        words.push(self.forward[2]);
        words.push(self.up[0]);
        words.push(self.up[1]);
        words.push(self.up[2]);
        assert(words@ =~= self.words());
        words
    }
}

/// Finds the primary camera of a scene: the first perspective camera that
/// the walk meets. Returns the place of its visit in the walk, by which its
/// world transform is found, and its projection.
pub fn extract_camera_from_scene(gltf: &GltfData, walk: &Vec<Visit>) -> (found: Option<(usize, Perspective)>)
    requires
        visits_in_range(walk@, gltf.nodes@.len() as int),
    ensures
        match found {
            Some((place, perspective)) => place == first_camera_from(gltf.nodes@, walk@, 0)
                && place < walk@.len() && perspective_of(
                gltf.nodes@[walk@[place as int].node as int],
            ) == Some(perspective),
            None => first_camera_from(gltf.nodes@, walk@, 0) == walk@.len(),
        },
{
    let mut i: usize = 0;
    while i < walk.len()
        invariant
            i <= walk@.len(),
            visits_in_range(walk@, gltf.nodes@.len() as int),
            first_camera_from(gltf.nodes@, walk@, 0) == first_camera_from(
                gltf.nodes@,
                walk@,
                i as int,
            ),
        decreases walk@.len() - i,
    {
        match gltf.nodes[walk[i].node].camera {
            Some(Projection::Perspective(perspective)) => {
                return Some((i, perspective));
            },
            _ => {},
        }
        i = i + 1;
    }
    None
}

/// One of the given materials has the image as one of its textures.
pub open spec fn texture_in_use(sources: Seq<MaterialSource>, materials: Seq<usize>, image: usize) -> bool {
    exists|i: int|
        0 <= i < materials.len() && (sources[(#[trigger] materials[i]) as int].base_color_texture
            == Some(image) || sources[materials[i] as int].metallic_roughness_texture == Some(
            image,
        ))
}

/// The images that the given materials use as textures, ascending and each
/// once.
pub fn gather_textures(gltf: &GltfData, materials: &Vec<usize>) -> (textures: Vec<usize>)
    requires
        all_below(materials@, gltf.materials@.len() as int),
    ensures
        strictly_ascending(textures@),
        forall|x: usize| textures@.contains(x) <==> texture_in_use(gltf.materials@, materials@, x),
{
    let mut textures: Vec<usize> = Vec::new();
    let mut i: usize = 0;
    while i < materials.len()
        invariant
            i <= materials@.len(),
            all_below(materials@, gltf.materials@.len() as int),
            strictly_ascending(textures@),
            forall|x: usize|
                #![trigger textures@.contains(x)]
                textures@.contains(x) <==> texture_in_use(
                    gltf.materials@,
                    materials@.take(i as int),
                    x,
                ),
        decreases materials@.len() - i,
    {
        let ghost seen = materials@.take(i as int);
        let ghost next = materials@.take(i + 1);
        let ghost start = textures@;
        let source = &gltf.materials[materials[i]];
        match source.base_color_texture {
            Some(image) => {
                insert_sorted(&mut textures, image);
            },
            None => {},
        }
        let ghost middle = textures@;
        match source.metallic_roughness_texture {
            Some(image) => {
                insert_sorted(&mut textures, image);
            },
            None => {},
        }
        proof {
            assert(next.len() == i + 1);
            assert(next[i as int] == materials@[i as int]);
            assert forall|x: usize|
                #![trigger textures@.contains(x)]
                textures@.contains(x) <==> texture_in_use(gltf.materials@, next, x) by {
                assert(middle.contains(x) <==> (start.contains(x) || source.base_color_texture
                    == Some(x)));
                assert(textures@.contains(x) <==> (middle.contains(x)
                    || source.metallic_roughness_texture == Some(x)));
                assert(start.contains(x) <==> texture_in_use(gltf.materials@, seen, x));
                if texture_in_use(gltf.materials@, next, x) {
                    let j = choose|j: int|
                        0 <= j < next.len() && (gltf.materials@[(
                        #[trigger] next[j]) as int].base_color_texture == Some(x)
                            || gltf.materials@[next[j] as int].metallic_roughness_texture == Some(
                            x,
                        ));
                    if j < i {
                        assert(seen[j] == next[j]);
                        assert(texture_in_use(gltf.materials@, seen, x));
                    }
                }
                if texture_in_use(gltf.materials@, seen, x) {
                    let j = choose|j: int|
                        0 <= j < seen.len() && (gltf.materials@[(
                        #[trigger] seen[j]) as int].base_color_texture == Some(x)
                            || gltf.materials@[seen[j] as int].metallic_roughness_texture == Some(
                            x,
                        ));
                    assert(next[j] == seen[j]);
                }
            }
        }
        i = i + 1;
    }
    assert(materials@.take(materials@.len() as int) =~= materials@);
    textures
}

/// A loaded scene with what was worked out of it.
pub struct Scene {
    pub gltf: GltfData,
    pub camera: Camera,
    pub root_nodes: Vec<usize>,
    /// The walk through the scene from its root nodes.
    pub walk: Vec<Visit>,
    /// The meshes in use, ascending.
    pub meshes: Vec<usize>,
    /// The materials in use, ascending.
    pub materials: Vec<usize>,
    /// The images in use as textures, ascending.
    pub textures: Vec<usize>,
    /// The nodes that are vehicles, ascending.
    pub car_node_indices: Vec<usize>,
}

impl Scene {
    /// The invariant of a scene: the indices of the scene file are sound, and
    /// what was worked out of it is what the file says.
    pub open spec fn wf(&self) -> bool {
        &&& self.gltf.wf()
        &&& self.gltf.scenes@.len() > 0
        &&& self.root_nodes@ == self.gltf.scenes@[0]@
        &&& walk_of_roots(self.gltf.nodes@, self.root_nodes@) == Some(self.walk@)
        &&& visits_in_range(self.walk@, self.gltf.nodes@.len() as int)
        &&& strictly_ascending(self.meshes@)
        &&& strictly_ascending(self.materials@)
        &&& strictly_ascending(self.car_node_indices@)
        &&& strictly_ascending(self.textures@)
        &&& forall|x: usize|
            self.textures@.contains(x) <==> texture_in_use(
                self.gltf.materials@,
                self.materials@,
                x,
            )
        &&& all_below(self.meshes@, self.gltf.meshes@.len() as int)
        &&& all_below(self.materials@, self.gltf.materials@.len() as int)
        &&& all_below(self.car_node_indices@, self.gltf.nodes@.len() as int)
        &&& forall|x: usize| self.meshes@.contains(x) <==> mesh_in_use(self.gltf.nodes@, self.walk@, x)
        &&& forall|x: usize|
            self.materials@.contains(x) <==> material_in_use(self.gltf.meshes@, self.meshes@, x)
        &&& forall|x: usize|
            self.car_node_indices@.contains(x) <==> car_in_walk(&self.gltf, self.walk@, x)
    }

    /// Works out of a loaded scene file what the build steps need: the walk
    /// through the first scene of the file, and the meshes, materials and
    /// vehicles that the walk meets. There is no scene if a node of the
    /// file hangs below itself.
    pub fn new(gltf: GltfData, camera: Camera) -> (scene: Option<Scene>)
        requires
            gltf.wf(),
            gltf.scenes@.len() > 0,
        ensures
            scene is Some <==> walk_of_roots(gltf.nodes@, gltf.scenes@[0]@) is Some,
            scene matches Some(s) ==> s.wf() && s.gltf == gltf && s.camera == camera,
    {
        let root_nodes = gltf.gather_root_node_indices(0);
        let walk = match walk_roots(&gltf, &root_nodes) {
            Some(walk) => walk,
            None => {
                return None;
            },
        };
        let meshes = gather_meshes(&gltf, &walk);
        let car_node_indices = gather_cars(&gltf, &walk);
        proof {
            assert forall|i: int| 0 <= i < meshes@.len() implies (#[trigger] meshes@[i])
                < gltf.meshes@.len() by {
                assert(meshes@.contains(meshes@[i]));
                let j = choose|j: int|
                    0 <= j < walk@.len() && gltf.nodes@[(#[trigger] walk@[j]).node as int].mesh
                        == Some(meshes@[i]);
                assert(gltf.nodes@[walk@[j].node as int].mesh == Some(meshes@[i]));
            }
            assert forall|i: int| 0 <= i < car_node_indices@.len() implies (
            #[trigger] car_node_indices@[i]) < gltf.nodes@.len() by {
                assert(car_node_indices@.contains(car_node_indices@[i]));
            }
        }
        let materials = gather_materials(&gltf, &meshes);
        proof {
            assert forall|i: int| 0 <= i < materials@.len() implies (#[trigger] materials@[i])
                < gltf.materials@.len() by {
                assert(materials@.contains(materials@[i]));
                let (a, b) = choose|a: int, b: int|
                    #![trigger gltf.meshes@[meshes@[a] as int].primitives@[b]]
                    0 <= a < meshes@.len() && 0 <= b < gltf.meshes@[meshes@[a] as int].primitives@.len()
                        && gltf.meshes@[meshes@[a] as int].primitives@[b].material_index == Some(
                        materials@[i],
                    );
                assert(gltf.meshes@[meshes@[a] as int].primitives@[b].material_index == Some(
                    materials@[i],
                ));
            }
        }
        let textures = gather_textures(&gltf, &materials);
        Some(Scene { gltf, camera, root_nodes, walk, meshes, materials, textures, car_node_indices })
    }
}

} // verus!
