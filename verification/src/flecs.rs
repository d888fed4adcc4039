//! The entity world as the runtime loads it: entities grouped by archetype.
//!
//! An archetype is the list of the components and tags that an entity has. All
//! entities of one archetype are stored together, one array for each
//! component. An entity gets a temporary id when it is created and a stable,
//! numeric id once all entities are there.
//!
//! The serialized world is, with all numbers 32-bit and little-endian: the
//! number of archetypes, and for each archetype the number of its entities,
//! the number of its components and tags, the size in bytes of each component
//! and a zero for each tag, the length of its name with a terminating zero
//! byte, the name and the zero byte, and then the component arrays one after
//! the other, each as the bytes of its components.

use vstd::prelude::*;
use vstd::string::StringExecFns;
use crate::tables::words_bytes;
use crate::wire::{le_bytes, push_bytes, push_u32};

verus! {

/// The tags that an entity can carry.
#[derive(Clone, Copy, Debug, PartialEq, Eq, Structural)]
pub enum Tags {
    Boids,
    DirectionalLight,
}

/// The components that an entity can carry. Numbers that the runtime reads
/// as single-precision values are kept as their bit patterns; pointers that
/// the runtime patches when it loads the world are kept as 64-bit numbers.
#[derive(Clone, Copy, Debug)]
pub enum Components {
    Transform { position: [u32; 3], scale: [u32; 3], rotation: [u32; 4] },
    StaticMesh { mesh: u32 },
    DynamicPhysicsActor { actor: u64 },
    LightColorInfo { color: [u32; 3], intensity: u32 },
    CarPhysicsPart { car_actor: u64, shape_index: u32 },
}

/// The value that stands for the vehicle actor of a car part until the
/// runtime has patched it.
pub const UNPATCHED_CAR_ACTOR: u64 = 9999;

impl Tags {
    pub open spec fn spec_name(&self) -> Seq<char> {
        match self {
            Tags::Boids => "Boids"@,
            Tags::DirectionalLight => "DirectionalLight"@,
        }
    }

    /// The name of the tag.
    pub fn get_name(&self) -> (name: &'static str)
        ensures
            name@ == self.spec_name(),
    {
        match self {
            Tags::Boids => "Boids",
            Tags::DirectionalLight => "DirectionalLight",
        }
    }
}

/// The low half of a 64-bit number.
pub open spec fn low_word(x: u64) -> u32 {
    (x & 0xFFFF_FFFF) as u32
}

/// The high half of a 64-bit number.
pub open spec fn high_word(x: u64) -> u32 {
    (x >> 32) as u32
}

impl Components {
    pub open spec fn spec_name(&self) -> Seq<char> {
        match self {
            Components::Transform { .. } => "Transform"@,
            Components::StaticMesh { .. } => "StaticMesh"@,
            Components::DynamicPhysicsActor { .. } => "DynamicPhysicsActor"@,
            Components::LightColorInfo { .. } => "LightColorInfo"@,
            Components::CarPhysicsPart { .. } => "CarPhysicsPart"@,
        }
    }

    /// The name of the component.
    pub fn get_name(&self) -> (name: &'static str)
        ensures
            name@ == self.spec_name(),
    {
        match self {
            Components::Transform { .. } => "Transform",
            Components::StaticMesh { .. } => "StaticMesh",
            Components::DynamicPhysicsActor { .. } => "DynamicPhysicsActor",
            Components::LightColorInfo { .. } => "LightColorInfo",
            Components::CarPhysicsPart { .. } => "CarPhysicsPart",
        }
    }

    /// The words of the component as the runtime lays it out. A car part
    /// ends in a word of padding.
    pub open spec fn words(&self) -> Seq<u32> {
        match self {
            Components::Transform { position, scale, rotation } => seq![
                position[0],
                position[1],
                position[2],
                scale[0],
                scale[1],
                scale[2],
                rotation[0],
                rotation[1],
                rotation[2],
                rotation[3],
            ],
            Components::StaticMesh { mesh } => seq![*mesh],
            Components::DynamicPhysicsActor { actor } => seq![low_word(*actor), high_word(*actor)],
            Components::LightColorInfo { color, intensity } => seq![
                color[0],
                color[1],
                color[2],
                *intensity,
            ],
            Components::CarPhysicsPart { car_actor, shape_index } => seq![
                low_word(*car_actor),
                high_word(*car_actor),
                *shape_index,
                0,
            ],
        }
    }

    /// The size of the component in bytes.
    pub open spec fn spec_size(&self) -> u32 {
        match self {
            Components::Transform { .. } => 40,
            Components::StaticMesh { .. } => 4,
            Components::DynamicPhysicsActor { .. } => 8,
            Components::LightColorInfo { .. } => 16,
            Components::CarPhysicsPart { .. } => 16,
        }
    }

    #[verifier::when_used_as_spec(spec_size)]
    pub fn size(&self) -> (n: u32)
        ensures
            n == self.spec_size(),
            n == 4 * self.words().len(),
    {
        match self {
            Components::Transform { .. } => 40,
            Components::StaticMesh { .. } => 4,
            Components::DynamicPhysicsActor { .. } => 8,
            Components::LightColorInfo { .. } => 16,
            Components::CarPhysicsPart { .. } => 16,
        }
    }

    /// Appends the bytes of the component.
    pub fn write(&self, out: &mut Vec<u8>)
        ensures
            final(out)@ == old(out)@ + words_bytes(self.words()),
    {
        let mut words: Vec<u32> = Vec::new();
        match self {
            Components::Transform { position, scale, rotation } => {
                words.push(position[0]);
                words.push(position[1]);
                words.push(position[2]);
                words.push(scale[0]);
                words.push(scale[1]);
                words.push(scale[2]);
                words.push(rotation[0]);
                words.push(rotation[1]);
                words.push(rotation[2]);
                words.push(rotation[3]);
            },
            Components::StaticMesh { mesh } => {
                words.push(*mesh);
            },
            Components::DynamicPhysicsActor { actor } => {
                words.push((*actor & 0xFFFF_FFFF) as u32);
                words.push((*actor >> 32) as u32);
            },
            Components::LightColorInfo { color, intensity } => {
                words.push(color[0]);
                words.push(color[1]);
                words.push(color[2]);
                words.push(*intensity);
            },
            Components::CarPhysicsPart { car_actor, shape_index } => {
                words.push((*car_actor & 0xFFFF_FFFF) as u32);
                words.push((*car_actor >> 32) as u32);
                words.push(*shape_index);
                words.push(0);
            },
        }
        assert(words@ =~= self.words());
        let mut bytes = crate::tables::encode_words(&words);
        out.append(&mut bytes);
    }
}

/// The entities of one archetype.
pub struct Archetype {
    pub name: String,
    /// The number of components and tags of an entity.
    pub num_components: usize,
    /// For each component the values of all entities.
    pub components_arrays: Vec<Vec<Components>>,
}

/// What an archetype is, as mathematics.
pub struct ArchetypeModel {
    pub name: Seq<char>,
    pub num_components: nat,
    pub arrays: Seq<Seq<Components>>,
}

impl View for Archetype {
    type V = ArchetypeModel;

    open spec fn view(&self) -> ArchetypeModel {
        ArchetypeModel {
            name: self.name@,
            num_components: self.num_components as nat,
            arrays: Seq::new(
                self.components_arrays@.len(),
                |k: int| self.components_arrays@[k]@,
            ),
        }
    }
}

/// The id of an entity while entities are still being added: its archetype
/// and its place in it.
#[derive(Clone, Copy, Debug, PartialEq, Eq, Structural)]
pub struct TemporaryEntityId {
    pub archetype_index: usize,
    pub entity_index: usize,
}

/// The entity world under construction.
pub struct FlecsState {
    pub archetypes: Vec<Archetype>,
    /// For each archetype the number of components and tags of all
    /// archetypes before it; empty until all entities are added.
    pub archetype_num_entities_prefix_sum: Vec<usize>,
}

/// The names joined by commas.
pub open spec fn joined(names: Seq<Seq<char>>) -> Seq<char>
    decreases names.len(),
{
    if names.len() == 0 {
        Seq::empty()
    } else if names.len() == 1 {
        names[0]
    } else {
        joined(names.drop_last()) + ","@ + names.last()
    }
}

/// The names of the components, then those of the tags.
pub open spec fn names_of(components: Seq<Components>, tags: Seq<Tags>) -> Seq<Seq<char>> {
    Seq::new(components.len(), |i: int| components[i].spec_name()) + Seq::new(
        tags.len(),
        |i: int| tags[i].spec_name(),
    )
}

/// The name of the archetype of an entity with the given components and
/// tags.
pub open spec fn archetype_name(components: Seq<Components>, tags: Seq<Tags>) -> Seq<char> {
    joined(names_of(components, tags))
}

/// The first archetype from `from` on that has the name, or the number of
/// archetypes if none has.
pub open spec fn find_archetype(world: Seq<ArchetypeModel>, name: Seq<char>, from: int) -> int
    decreases world.len() - from,
{
    if from < 0 || from >= world.len() {
        world.len() as int
    } else if world[from].name == name {
        from
    } else {
        find_archetype(world, name, from + 1)
    }
}

/// The arrays of an archetype after an entity with the given components was
/// added: each component is appended to the array at its place.
pub open spec fn arrays_with(arrays: Seq<Seq<Components>>, components: Seq<Components>) -> Seq<
    Seq<Components>,
> {
    Seq::new(
        arrays.len(),
        |k: int|
            if k < components.len() {
                arrays[k].push(components[k])
            } else {
                arrays[k]
            },
    )
}

/// The world after an entity with the given components and tags was
/// created: it joins the first archetype of its name, or a new archetype at
/// the end if there is none.
pub open spec fn with_entity(
    world: Seq<ArchetypeModel>,
    components: Seq<Components>,
    tags: Seq<Tags>,
) -> Seq<ArchetypeModel> {
    let name = archetype_name(components, tags);
    let index = find_archetype(world, name, 0);
    if index < world.len() {
        world.update(
            index,
            ArchetypeModel {
                name: world[index].name,
                num_components: world[index].num_components,
                arrays: arrays_with(world[index].arrays, components),
            },
        )
    } else {
        world.push(
            ArchetypeModel {
                name,
                num_components: components.len() + tags.len(),
                arrays: Seq::new(components.len(), |k: int| seq![components[k]]),
            },
        )
    }
}

/// The id of the entity that `with_entity` adds.
pub open spec fn id_of_new_entity(
    world: Seq<ArchetypeModel>,
    components: Seq<Components>,
    tags: Seq<Tags>,
) -> TemporaryEntityId {
    let index = find_archetype(world, archetype_name(components, tags), 0);
    TemporaryEntityId {
        archetype_index: index as usize,
        entity_index: if index < world.len() {
            world[index].arrays[0].len() as usize
        } else {
            0
        },
    }
}

/// The number of entities of the first `n` archetypes.
pub open spec fn entity_sum(world: Seq<ArchetypeModel>, n: int) -> int
    decreases n,
{
    if n <= 0 {
        0
    } else {
        entity_sum(world, n - 1) + entity_count(world[n - 1])
    }
}

/// The number of entities of an archetype.
pub open spec fn entity_count(archetype: ArchetypeModel) -> int {
    archetype.arrays[0].len() as int
}

/// The size of the world: one for each entity, and for each archetype the
/// number of its components and tags.
pub open spec fn world_size(world: Seq<ArchetypeModel>, n: int) -> int
    decreases n,
{
    if n <= 0 {
        0
    } else {
        world_size(world, n - 1) + world[n - 1].num_components + entity_count(world[n - 1])
    }
}

/// The archetypes are sound: each has at least one component array, and no
/// array is empty.
pub open spec fn world_wf(world: Seq<ArchetypeModel>) -> bool {
    forall|i: int|
        0 <= i < world.len() ==> (#[trigger] world[i]).arrays.len() > 0 && forall|k: int|
            0 <= k < world[i].arrays.len() ==> (#[trigger] world[i].arrays[k]).len() > 0
}

impl View for FlecsState {
    type V = Seq<ArchetypeModel>;

    open spec fn view(&self) -> Seq<ArchetypeModel> {
        Seq::new(self.archetypes@.len(), |i: int| self.archetypes@[i]@)
    }
}

/// The size of the world does not depend on what stands behind the
/// archetypes that are counted, and it bounds what it counts.
pub proof fn lemma_world_size(world: Seq<ArchetypeModel>, other: Seq<ArchetypeModel>, n: int)
    requires
        0 <= n <= world.len(),
        n <= other.len(),
        world_wf(world),
        forall|i: int| 0 <= i < n ==> world[i] == other[i],
    ensures
        world_size(world, n) == world_size(other, n),
        entity_sum(world, n) == entity_sum(other, n),
        0 <= entity_sum(world, n) <= world_size(world, n),
    decreases n,
{
    if n > 0 {
        lemma_world_size(world, other, n - 1);
    }
}

/// The size of the world only grows as more archetypes are counted.
pub proof fn lemma_world_size_monotonic(world: Seq<ArchetypeModel>, a: int, b: int)
    requires
        0 <= a <= b <= world.len(),
        world_wf(world),
    ensures
        world_size(world, a) <= world_size(world, b),
        entity_sum(world, a) + (if a < b {
            entity_count(world[a])
        } else {
            0
        }) <= world_size(world, b),
    decreases b - a,
{
    lemma_world_size(world, world, a);
    if a < b {
        lemma_world_size_monotonic(world, a, b - 1);
        lemma_world_size(world, world, b - 1);
    }
}

/// The number of entities only grows as more archetypes are counted.
pub proof fn lemma_entity_sum_monotonic(world: Seq<ArchetypeModel>, a: int, b: int)
    requires
        a <= b,
    ensures
        entity_sum(world, a) <= entity_sum(world, b),
    decreases b - a,
{
    if a < b {
        lemma_entity_sum_monotonic(world, a, b - 1);
    }
}

/// Stable ids tell the entities of a world apart: entity `e` of archetype `a`
/// and entity `f` of archetype `b` have the same id only if they are the same
/// entity.
pub proof fn lemma_stable_ids_differ(world: Seq<ArchetypeModel>, a: int, e: int, b: int, f: int)
    requires
        0 <= a < world.len(),
        0 <= b < world.len(),
        0 <= e < entity_count(world[a]),
        0 <= f < entity_count(world[b]),
        entity_sum(world, a) + e == entity_sum(world, b) + f,
    ensures
        a == b,
        e == f,
{
    if a < b {
        lemma_entity_sum_monotonic(world, a + 1, b);
    }
    if b < a {
        lemma_entity_sum_monotonic(world, b + 1, a);
    }
}

impl FlecsState {
    pub fn new() -> (state: FlecsState)
        ensures
            state@.len() == 0,
            state.wf(),
            state.archetype_num_entities_prefix_sum@.len() == 0,
    {
        FlecsState { archetypes: Vec::new(), archetype_num_entities_prefix_sum: Vec::new() }
    }

    /// The invariant of the world.
    pub open spec fn wf(&self) -> bool {
        world_wf(self@)
    }

    /// The size of the whole world.
    pub open spec fn size(&self) -> int {
        world_size(self@, self@.len() as int)
    }

    /// All entities are added: the stable ids are laid out.
    pub open spec fn is_finished(&self) -> bool {
        &&& self.archetype_num_entities_prefix_sum@.len() == self@.len()
        &&& forall|i: int|
            0 <= i < self@.len() ==> #[trigger] self.archetype_num_entities_prefix_sum@[i]
                == entity_sum(self@, i)
    }

    fn name_of(components: &Vec<Components>, tags: &Vec<Tags>) -> (name: String)
        ensures
            name@ == archetype_name(components@, tags@),
    {
        let ghost names = names_of(components@, tags@);
        let mut name = String::new();
        let mut i: usize = 0;
        while i < components.len()
            invariant
                i <= components@.len(),
                names == names_of(components@, tags@),
                name@ == joined(names.take(i as int)),
            decreases components@.len() - i,
        {
            proof {
                assert(names.take(i + 1).drop_last() =~= names.take(i as int));
                assert(names.take(i + 1).last() == components@[i as int].spec_name());
                assert(names.take(1)[0] == names[0]);
            }
            if i > 0 {
                name.append(",");
            }
            name.append(components[i].get_name());
            proof {
                if i == 0 {
                    assert(Seq::<char>::empty() + components@[0].spec_name()
                        =~= components@[0].spec_name());
                }
            }
            i = i + 1;
        }
        let count: usize = components.len();
        let mut j: usize = 0;
        while j < tags.len()
            invariant
                j <= tags@.len(),
                count == components@.len(),
                names == names_of(components@, tags@),
                name@ == joined(names.take(count + j)),
            decreases tags@.len() - j,
        {
            proof {
                assert(names.take(count + j + 1).drop_last() =~= names.take(count + j));
                assert(names.take(count + j + 1).last() == tags@[j as int].spec_name());
                assert(names.take(1)[0] == names[0]);
            }
            if count > 0 || j > 0 {
                name.append(",");
            }
            name.append(tags[j].get_name());
            proof {
                if count + j == 0 {
                    assert(Seq::<char>::empty() + tags@[0].spec_name() =~= tags@[0].spec_name());
                }
            }
            j = j + 1;
        }
        assert(names.take(names.len() as int) =~= names);
        name
    }

    fn find(&self, name: &String) -> (index: usize)
        ensures
            index == find_archetype(self@, name@, 0),
            index <= self@.len(),
    {
        let mut i: usize = 0;
        while i < self.archetypes.len()
            invariant
                i <= self@.len(),
                find_archetype(self@, name@, 0) == find_archetype(self@, name@, i as int),
            decreases self@.len() - i,
        {
            if self.archetypes[i].name == *name {
                return i;
            }
            i = i + 1;
        }
        i
    }

    /// Creates an entity with the given components and tags. The entity
    /// joins the archetype that is named after its components and tags, which
    /// is created if this is the first entity of its kind.
    pub fn create_entity(&mut self, name: &str, components: Vec<Components>, tags: &Vec<Tags>) -> (id:
        TemporaryEntityId)
        requires
            old(self).wf(),
            components@.len() > 0,
            old(self).size() + components@.len() + tags@.len() + 1 <= usize::MAX,
        ensures
            final(self)@ == with_entity(old(self)@, components@, tags@),
            id == id_of_new_entity(old(self)@, components@, tags@),
            id.archetype_index < final(self)@.len(),
            id.entity_index + 1 == entity_count(final(self)@[id.archetype_index as int]),
            final(self).wf(),
            final(self).size() <= old(self).size() + components@.len() + tags@.len() + 1,
            final(self).archetype_num_entities_prefix_sum == old(
                self,
            ).archetype_num_entities_prefix_sum,
    {
        let archetype_name = Self::name_of(&components, tags);
        let index = self.find(&archetype_name);
        let ghost before = self@;
        proof {
            lemma_world_size(before, before, before.len() as int);
        }
        if index == self.archetypes.len() {
            let mut components_arrays: Vec<Vec<Components>> = Vec::new();
            let mut k: usize = 0;
            while k < components.len()
                invariant
                    k <= components@.len(),
                    components_arrays@.len() == k,
                    forall|j: int| 0 <= j < k ==> (#[trigger] components_arrays@[j])@ == seq![components@[j]],
                decreases components@.len() - k,
            {
                let mut array: Vec<Components> = Vec::new();
                array.push(components[k]);
                assert(array@ =~= seq![components@[k as int]]);
                components_arrays.push(array);
                k = k + 1;
            }
            let archetype = Archetype {
                name: archetype_name,
                num_components: components.len() + tags.len(),
                components_arrays,
            };
            proof {
                assert(archetype@.arrays =~= Seq::new(
                    components@.len(),
                    |k: int| seq![components@[k]],
                ));
            }
            self.archetypes.push(archetype);
            proof {
                let after = self@;
                assert(after =~= with_entity(before, components@, tags@));
                lemma_world_size(after, before, before.len() as int);
            }
            TemporaryEntityId { archetype_index: index, entity_index: 0 }
        } else {
            let ghost target = before[index as int];
            let count: usize = self.archetypes[index].components_arrays.len();
            let entity_index: usize = self.archetypes[index].components_arrays[0].len();
            let mut k: usize = 0;
            while k < count && k < components.len()
                invariant
                    k <= count,
                    k <= components@.len(),
                    index < self.archetypes@.len(),
                    self.archetypes@.len() == before.len(),
                    count == target.arrays.len(),
                    self.archetype_num_entities_prefix_sum == old(
                        self,
                    ).archetype_num_entities_prefix_sum,
                    forall|i: int|
                        0 <= i < before.len() && i != index ==> #[trigger] self.archetypes@[i]@
                            == before[i],
                    self.archetypes@[index as int].name@ == target.name,
                    self.archetypes@[index as int].num_components == target.num_components,
                    self.archetypes@[index as int].components_arrays@.len() == count,
                    forall|j: int|
                        0 <= j < count ==> (
                        #[trigger] self.archetypes@[index as int].components_arrays@[j])@ == if j
                            < k {
                            target.arrays[j].push(components@[j])
                        } else {
                            target.arrays[j]
                        },
                decreases count - k,
            {
                let ghost previous = self.archetypes@;
                self.archetypes[index].components_arrays[k].push(components[k]);
                proof {
                    assert forall|i: int| 0 <= i < before.len() && i != index implies (
                    #[trigger] self.archetypes@[i])@ == before[i] by {
                        assert(self.archetypes@[i] == previous[i]);
                    }
                }
                k = k + 1;
            }
            proof {
                let after = self@;
                assert(after[index as int].arrays =~= arrays_with(target.arrays, components@));
                assert(after =~= with_entity(before, components@, tags@));
                lemma_entity_joined(before, after, index as int, before.len() as int);
            }
            TemporaryEntityId { archetype_index: index, entity_index }
        }
    }

    /// Lays out the stable ids once all entities are added.
    pub fn finish_adding_entities(&mut self)
        requires
            old(self).wf(),
            old(self).size() <= usize::MAX,
            old(self).archetype_num_entities_prefix_sum@.len() == 0,
        ensures
            final(self).archetypes == old(self).archetypes,
            final(self).is_finished(),
    {
        let mut sum: usize = 0;
        let mut i: usize = 0;
        while i < self.archetypes.len()
            invariant
                i <= self@.len(),
                self.archetypes == old(self).archetypes,
                self.wf(),
                self.size() <= usize::MAX,
                sum == entity_sum(self@, i as int),
                self.archetype_num_entities_prefix_sum@.len() == i,
                forall|j: int|
                    0 <= j < i ==> #[trigger] self.archetype_num_entities_prefix_sum@[j]
                        == entity_sum(self@, j),
            decreases self@.len() - i,
        {
            proof {
                lemma_world_size_monotonic(self@, (i + 1) as int, self@.len() as int);
                lemma_world_size(self@, self@, (i + 1) as int);
            }
            self.archetype_num_entities_prefix_sum.push(sum);
            sum = sum + self.archetypes[i].components_arrays[0].len();
            i = i + 1;
        }
    }

    /// The stable id of an entity: the number of entities of all archetypes
    /// before its own, plus its place in its archetype.
    pub fn create_stable_entity_ids(&self, id: TemporaryEntityId) -> (stable: usize)
        requires
            self.wf(),
            self.is_finished(),
            self.size() <= usize::MAX,
            id.archetype_index < self@.len(),
            id.entity_index < entity_count(self@[id.archetype_index as int]),
        ensures
            stable == entity_sum(self@, id.archetype_index as int) + id.entity_index,
    {
        proof {
            lemma_world_size_monotonic(self@, id.archetype_index as int, self@.len() as int);
        }
        self.archetype_num_entities_prefix_sum[id.archetype_index] + id.entity_index
    }
}

/// The bytes of the first `n` components of an array.
pub open spec fn array_blob(array: Seq<Components>, n: nat) -> Seq<u8>
    decreases n,
{
    if n == 0 || n > array.len() {
        Seq::empty()
    } else {
        array_blob(array, (n - 1) as nat) + words_bytes(array[n - 1].words())
    }
}

/// The bytes of the first `n` component arrays of an archetype.
pub open spec fn arrays_blob(arrays: Seq<Seq<Components>>, n: nat) -> Seq<u8>
    decreases n,
{
    if n == 0 || n > arrays.len() {
        Seq::empty()
    } else {
        arrays_blob(arrays, (n - 1) as nat) + array_blob(arrays[n - 1], arrays[n - 1].len())
    }
}

/// The sizes of the first `n` components and tags of an archetype: the size
/// of a component is that of the first value in its array, the size of a tag
/// is zero.
pub open spec fn sizes_blob(archetype: ArchetypeModel, n: nat) -> Seq<u8>
    decreases n,
{
    if n == 0 {
        Seq::empty()
    } else {
        sizes_blob(archetype, (n - 1) as nat) + le_bytes(
            if n - 1 < archetype.arrays.len() {
                archetype.arrays[n - 1][0].spec_size()
            } else {
                0
            },
        )
    }
}

/// The number of sizes that are written for an archetype.
pub open spec fn size_count(archetype: ArchetypeModel) -> nat {
    if archetype.arrays.len() < archetype.num_components {
        archetype.num_components
    } else {
        archetype.arrays.len()
    }
}

/// The bytes of an archetype.
pub open spec fn archetype_blob(archetype: ArchetypeModel) -> Seq<u8> {
    le_bytes(entity_count(archetype) as u32) + le_bytes(archetype.num_components as u32)
        + sizes_blob(archetype, size_count(archetype)) + le_bytes(
        (vstd::utf8::encode_utf8(archetype.name).len() + 1) as u32,
    ) + vstd::utf8::encode_utf8(archetype.name) + seq![0u8] + arrays_blob(
        archetype.arrays,
        archetype.arrays.len(),
    )
}

/// The bytes of the first `n` archetypes.
pub open spec fn archetypes_blob(world: Seq<ArchetypeModel>, n: nat) -> Seq<u8>
    decreases n,
{
    if n == 0 || n > world.len() {
        Seq::empty()
    } else {
        archetypes_blob(world, (n - 1) as nat) + archetype_blob(world[n - 1])
    }
}

/// The serialized world.
pub open spec fn world_blob(world: Seq<ArchetypeModel>) -> Seq<u8> {
    le_bytes(world.len() as u32) + archetypes_blob(world, world.len())
}

/// An archetype can be serialized: its counts fit 32 bits.
pub open spec fn archetype_fits(archetype: ArchetypeModel) -> bool {
    &&& entity_count(archetype) <= u32::MAX
    &&& archetype.num_components <= u32::MAX
    &&& vstd::utf8::encode_utf8(archetype.name).len() < u32::MAX
}

/// The world can be serialized.
pub open spec fn world_fits(world: Seq<ArchetypeModel>) -> bool {
    &&& world.len() <= u32::MAX
    &&& forall|i: int| 0 <= i < world.len() ==> archetype_fits(#[trigger] world[i])
}

/// Why a world could not be serialized.
#[derive(Clone, Copy, Debug, PartialEq, Eq, Structural)]
pub enum FlecsError {
    /// The world has more archetypes, or an archetype more entities or
    /// components or a longer name, than 32 bits can count.
    TooLarge,
}

impl Archetype {
    fn write_array(array: &Vec<Components>, out: &mut Vec<u8>)
        ensures
            final(out)@ == old(out)@ + array_blob(array@, array@.len()),
    {
        let mut i: usize = 0;
        while i < array.len()
            invariant
                i <= array@.len(),
                out@ == old(out)@ + array_blob(array@, i as nat),
            decreases array@.len() - i,
        {
            array[i].write(out);
            assert(out@ =~= old(out)@ + array_blob(array@, (i + 1) as nat));
            i = i + 1;
        }
    }

    fn check(&self) -> (b: bool)
        requires
            self@.arrays.len() > 0,
        ensures
            b == archetype_fits(self@),
    {
        let name = self.name.as_str().as_bytes();
        self.components_arrays[0].len() <= u32::MAX as usize && self.num_components
            <= u32::MAX as usize && name.len() < u32::MAX as usize
    }

    /// Appends the bytes of the archetype.
    #[verifier::loop_isolation(false)]
    fn write(&self, out: &mut Vec<u8>)
        requires
            self@.arrays.len() > 0,
            forall|k: int| 0 <= k < self@.arrays.len() ==> (#[trigger] self@.arrays[k]).len() > 0,
            archetype_fits(self@),
        ensures
            final(out)@ == old(out)@ + archetype_blob(self@),
    {
        let ghost model = self@;
        push_u32(out, self.components_arrays[0].len() as u32);
        push_u32(out, self.num_components as u32);
        let ghost head = out@;
        let count: usize = if self.components_arrays.len() < self.num_components {
            self.num_components
        } else {
            self.components_arrays.len()
        };
        let mut k: usize = 0;
        while k < count
            invariant
                k <= count,
                out@ == head + sizes_blob(model, k as nat),
            decreases count - k,
        {
            if k < self.components_arrays.len() {
                assert(model.arrays[k as int].len() > 0);
                push_u32(out, self.components_arrays[k][0].size());
            } else {
                push_u32(out, 0);
            }
            assert(out@ =~= head + sizes_blob(model, (k + 1) as nat));
            k = k + 1;
        }
        let name = self.name.as_str().as_bytes();
        push_u32(out, (name.len() + 1) as u32);
        push_bytes(out, name);
        out.push(0);
        let ghost middle = out@;
        let mut a: usize = 0;
        while a < self.components_arrays.len()
            invariant
                a <= self.components_arrays@.len(),
                out@ == middle + arrays_blob(model.arrays, a as nat),
            decreases self.components_arrays@.len() - a,
        {
            Self::write_array(&self.components_arrays[a], out);
            assert(out@ =~= middle + arrays_blob(model.arrays, (a + 1) as nat));
            a = a + 1;
        }
        assert(out@ =~= old(out)@ + archetype_blob(model));
    }
}

impl FlecsState {
    /// Appends the serialized world. Nothing is appended if the world does
    /// not fit 32-bit counts.
    #[verifier::loop_isolation(false)]
    pub fn write_to_buffer(&self, out: &mut Vec<u8>) -> (r: Result<(), FlecsError>)
        requires
            self.wf(),
            self.is_finished(),
        ensures
            r is Ok <==> world_fits(self@),
            r is Ok ==> final(out)@ == old(out)@ + world_blob(self@),
            r is Err ==> final(out)@ == old(out)@,
    {
        if self.archetypes.len() > u32::MAX as usize {
            return Err(FlecsError::TooLarge);
        }
        let mut i: usize = 0;
        while i < self.archetypes.len()
            invariant
                i <= self@.len(),
                forall|j: int| 0 <= j < i ==> archetype_fits(#[trigger] self@[j]),
            decreases self@.len() - i,
        {
            assert(self@[i as int].arrays.len() > 0);
            if !self.archetypes[i].check() {
                return Err(FlecsError::TooLarge);
            }
            i = i + 1;
        }
        push_u32(out, self.archetypes.len() as u32);
        let ghost head = out@;
        let mut i: usize = 0;
        while i < self.archetypes.len()
            invariant
                i <= self@.len(),
                out@ == head + archetypes_blob(self@, i as nat),
            decreases self@.len() - i,
        {
            assert(archetype_fits(self@[i as int]));
            assert(self@[i as int].arrays.len() > 0);
            self.archetypes[i].write(out);
            assert(out@ =~= head + archetypes_blob(self@, (i + 1) as nat));
            i = i + 1;
        }
        assert(out@ =~= old(out)@ + world_blob(self@));
        Ok(())
    }
}

/// Adding an entity to an archetype adds one to the size of the world and
/// leaves the world sound.
pub proof fn lemma_entity_joined(
    before: Seq<ArchetypeModel>,
    after: Seq<ArchetypeModel>,
    index: int,
    n: int,
)
    requires
        0 <= index < before.len(),
        0 <= n <= before.len(),
        after.len() == before.len(),
        world_wf(before),
        forall|i: int| 0 <= i < before.len() && i != index ==> after[i] == before[i],
        after[index].num_components == before[index].num_components,
        after[index].arrays.len() == before[index].arrays.len(),
        after[index].arrays[0].len() == before[index].arrays[0].len() + 1,
    ensures
        world_size(after, n) == world_size(before, n) + (if index < n {
            1int
        } else {
            0int
        }),
    decreases n,
{
    if n > 0 {
        lemma_entity_joined(before, after, index, n - 1);
    }
}

} // verus!
