//! The orchestrator: in which order the build steps of a level run.
//!
//! The orchestrator runs no step itself. It is told what has happened and
//! says what is to be done next; whoever drives it spawns the tasks, awaits
//! them and reports back. The steps depend on each other in one way only: the
//! physics world needs the ids of the entities, so it is spawned when the
//! entity world has finished and not before. All other builders run side by
//! side. The first failure ends the build; artifacts that were written
//! before it stay where they are.
//!
//! 1. The scene is loaded.
//! 2. One mesh extractor is spawned for each mesh; all are awaited.
//! 3. The entity world, the geometry, texture and audio databases are spawned.
//! 4. When the entity world has finished, the physics world is spawned.
//! 5. When geometry, texture, audio and physics have finished, the three
//!    databases are written and the level is assembled.
//! 6. When the three files are written, the build is done.

use vstd::prelude::*;

verus! {

/// The builders of the artifacts of a level.
#[derive(Clone, Copy, Debug, PartialEq, Eq, Structural)]
pub enum Builder {
    Entities,
    Geometry,
    Texture,
    Audio,
    Physics,
}

/// What the orchestrator is told.
#[derive(Clone, Copy, Debug, PartialEq, Eq, Structural)]
pub enum Event {
    /// The scene is loaded; it has this many meshes.
    SceneLoaded { mesh_count: usize },
    /// One mesh extractor has finished.
    MeshExtracted,
    /// A builder has finished.
    Finished(Builder),
    /// The file of one database is written.
    ArtifactWritten,
    /// A task has failed.
    Failed,
}

/// What the orchestrator asks for.
#[derive(Clone, Copy, Debug, PartialEq, Eq, Structural)]
pub enum Action {
    /// Spawn one mesh extractor for each of this many meshes.
    SpawnMeshExtractors { count: usize },
    /// Spawn a builder.
    Spawn(Builder),
    /// Write the artifact of a database to its file.
    WriteArtifact(Builder),
    /// Assemble the level from the entity world, the physics world, the
    /// names of the database files and the camera.
    AssembleLevel,
    /// Hand out the level: the build is done.
    Finish,
    /// Give up: a task has failed, or something was reported that cannot
    /// have happened.
    Abort,
}

/// Where a build stands.
#[derive(Clone, Copy, Debug, PartialEq, Eq, Structural)]
pub enum Phase {
    /// The scene is being loaded.
    Loading,
    /// Meshes are being extracted; this many extractors are still running.
    Extracting { remaining: usize },
    /// The builders are running; for each of them whether it has finished.
    /// The physics world runs exactly when the entity world has finished.
    Building { entities: bool, geometry: bool, texture: bool, audio: bool, physics: bool },
    /// The databases are being written; this many files are still open.
    Writing { remaining: usize },
    /// The level is compiled.
    Done,
    /// The build was given up.
    Failed,
}

/// The four builders that are spawned once the meshes are extracted.
pub open spec fn first_builders() -> Seq<Action> {
    seq![
        Action::Spawn(Builder::Entities),
        Action::Spawn(Builder::Geometry),
        Action::Spawn(Builder::Texture),
        Action::Spawn(Builder::Audio),
    ]
}

/// What is asked for once all builders have finished.
pub open spec fn closing_actions() -> Seq<Action> {
    seq![
        Action::WriteArtifact(Builder::Geometry),
        Action::WriteArtifact(Builder::Audio),
        Action::WriteArtifact(Builder::Texture),
        Action::AssembleLevel,
    ]
}

/// The phase in which all builders run and none has finished.
pub open spec fn building() -> Phase {
    Phase::Building { entities: false, geometry: false, texture: false, audio: false, physics: false }
}

/// The state after a builder has finished: writing begins when geometry,
/// texture, audio and physics are all done.
pub open spec fn after_finish(
    entities: bool,
    geometry: bool,
    texture: bool,
    audio: bool,
    physics: bool,
) -> (Phase, Seq<Action>) {
    if geometry && texture && audio && physics {
        (Phase::Writing { remaining: 3 }, closing_actions())
    } else {
        (Phase::Building { entities, geometry, texture, audio, physics }, Seq::empty())
    }
}

/// What follows from an event in a phase: the next phase and what is asked
/// for.
pub open spec fn next(phase: Phase, event: Event) -> (Phase, Seq<Action>) {
    match phase {
        Phase::Done => (Phase::Done, Seq::empty()),
        Phase::Failed => (Phase::Failed, Seq::empty()),
        Phase::Loading => match event {
            Event::SceneLoaded { mesh_count } => if mesh_count == 0 {
                (building(), first_builders())
            } else {
                (
                    Phase::Extracting { remaining: mesh_count },
                    seq![Action::SpawnMeshExtractors { count: mesh_count }],
                )
            },
            _ => (Phase::Failed, seq![Action::Abort]),
        },
        Phase::Extracting { remaining } => match event {
            Event::MeshExtracted => if remaining <= 1 {
                (building(), first_builders())
            } else {
                (Phase::Extracting { remaining: (remaining - 1) as usize }, Seq::empty())
            },
            _ => (Phase::Failed, seq![Action::Abort]),
        },
        Phase::Building { entities, geometry, texture, audio, physics } => match event {
            Event::Finished(Builder::Entities) => if entities {
                (Phase::Failed, seq![Action::Abort])
            } else {
                (
                    Phase::Building { entities: true, geometry, texture, audio, physics },
                    seq![Action::Spawn(Builder::Physics)],
                )
            },
            Event::Finished(Builder::Geometry) => if geometry {
                (Phase::Failed, seq![Action::Abort])
            } else {
                after_finish(entities, true, texture, audio, physics)
            },
            Event::Finished(Builder::Texture) => if texture {
                (Phase::Failed, seq![Action::Abort])
            } else {
                after_finish(entities, geometry, true, audio, physics)
            },
            Event::Finished(Builder::Audio) => if audio {
                (Phase::Failed, seq![Action::Abort])
            } else {
                after_finish(entities, geometry, texture, true, physics)
            },
            Event::Finished(Builder::Physics) => if physics || !entities {
                (Phase::Failed, seq![Action::Abort])
            } else {
                after_finish(entities, geometry, texture, audio, true)
            },
            _ => (Phase::Failed, seq![Action::Abort]),
        },
        Phase::Writing { remaining } => match event {
            Event::ArtifactWritten => if remaining <= 1 {
                (Phase::Done, seq![Action::Finish])
            } else {
                (Phase::Writing { remaining: (remaining - 1) as usize }, Seq::empty())
            },
            _ => (Phase::Failed, seq![Action::Abort]),
        },
    }
}

/// The phase after the first `n` of the events, from the start of a build.
pub open spec fn phase_after(events: Seq<Event>, n: nat) -> Phase
    decreases n,
{
    if n == 0 || n > events.len() {
        Phase::Loading
    } else {
        next(phase_after(events, (n - 1) as nat), events[n - 1]).0
    }
}

/// What is asked for in answer to event `i`.
pub open spec fn actions_at(events: Seq<Event>, i: int) -> Seq<Action> {
    next(phase_after(events, i as nat), events[i]).1
}

/// The physics world is spawned in answer to event `i`.
pub open spec fn spawns_physics(events: Seq<Event>, i: int) -> bool {
    actions_at(events, i).contains(Action::Spawn(Builder::Physics))
}

/// Event `i` reports that the entity world has finished.
pub open spec fn entities_finished_at(events: Seq<Event>, i: int) -> bool {
    events[i] == Event::Finished(Builder::Entities)
}

/// In a phase that can be reached, the physics world has not finished
/// unless the entity world has.
pub open spec fn phase_in_order(phase: Phase) -> bool {
    phase matches Phase::Building { entities, physics, .. } ==> (physics ==> entities)
}

/// The entity world has finished by the given phase.
pub open spec fn entities_done(phase: Phase) -> bool {
    match phase {
        Phase::Building { entities, .. } => entities,
        Phase::Writing { .. } => true,
        Phase::Done => true,
        _ => false,
    }
}

/// Every phase of a build is in order.
pub proof fn lemma_phases_in_order(events: Seq<Event>, n: nat)
    requires
        n <= events.len(),
    ensures
        phase_in_order(phase_after(events, n)),
    decreases n,
{
    if n > 0 {
        lemma_phases_in_order(events, (n - 1) as nat);
    }
}

/// Once the entity world has finished, or the build has failed, it stays
/// so: the phase never goes back to one in which the entity world runs.
pub proof fn lemma_entities_stay_done(events: Seq<Event>, a: nat, b: nat)
    requires
        a <= b <= events.len(),
        entities_done(phase_after(events, a)) || phase_after(events, a) == Phase::Failed,
    ensures
        entities_done(phase_after(events, b)) || phase_after(events, b) == Phase::Failed,
    decreases b - a,
{
    if a < b {
        lemma_entities_stay_done(events, a, (b - 1) as nat);
    }
}

/// Ordering: the physics world is spawned only in answer to the report that
/// the entity world has finished, and it is spawned at most once. Whatever
/// is reported, in whatever order, the first instruction of the physics
/// builder comes after the last of the entities builder.
pub proof fn lemma_physics_after_entities(events: Seq<Event>, i: int, j: int)
    requires
        0 <= i < events.len(),
        0 <= j < events.len(),
        spawns_physics(events, i),
    ensures
        entities_finished_at(events, i),
        !entities_done(phase_after(events, i as nat)),
        spawns_physics(events, j) ==> i == j,
{
    let phase = phase_after(events, i as nat);
    let answer = next(phase, events[i]);
    assert(answer.1.len() > 0);
    lemma_spawn_is_answer_to_entities(phase, events[i]);
    if spawns_physics(events, j) && i != j {
        let other = phase_after(events, j as nat);
        lemma_spawn_is_answer_to_entities(other, events[j]);
        if i < j {
            assert(entities_done(phase_after(events, (i + 1) as nat)));
            lemma_entities_stay_done(events, (i + 1) as nat, j as nat);
        } else {
            assert(entities_done(phase_after(events, (j + 1) as nat)));
            lemma_entities_stay_done(events, (j + 1) as nat, i as nat);
        }
    }
}

/// The physics world is asked for in one case only.
pub proof fn lemma_spawn_is_answer_to_entities(phase: Phase, event: Event)
    requires
        next(phase, event).1.contains(Action::Spawn(Builder::Physics)),
    ensures
        event == Event::Finished(Builder::Entities),
        phase matches Phase::Building { entities, .. } && !entities,
        next(phase, event).0 matches Phase::Building { entities, .. } && entities,
{
    let actions = next(phase, event).1;
    let k = choose|k: int| 0 <= k < actions.len() && actions[k] == Action::Spawn(Builder::Physics);
    assert(actions[k] == Action::Spawn(Builder::Physics));
    if actions =~= first_builders() {
        assert(first_builders()[k] != Action::Spawn(Builder::Physics));
    }
    if actions =~= closing_actions() {
        assert(closing_actions()[k] != Action::Spawn(Builder::Physics));
    }
}

/// The build is over in the given phase: it is done or was given up.
pub open spec fn build_is_over(phase: Phase) -> bool {
    phase == Phase::Done || phase == Phase::Failed
}

/// A build that is over stays as it is.
pub proof fn lemma_over_stays_over(events: Seq<Event>, a: nat, b: nat)
    requires
        a <= b <= events.len(),
        build_is_over(phase_after(events, a)),
    ensures
        phase_after(events, b) == phase_after(events, a),
    decreases b - a,
{
    if a < b {
        lemma_over_stays_over(events, a, (b - 1) as nat);
    }
}

/// Fail-fast: the report of a failure ends the build. In answer to it the
/// orchestrator asks at most to give up, and after it for nothing at all: no
/// builder is spawned, no artifact is written and no level is assembled.
pub proof fn lemma_failure_ends_the_build(events: Seq<Event>, i: int, j: int)
    requires
        0 <= i <= j < events.len(),
        events[i] == Event::Failed,
    ensures
        build_is_over(phase_after(events, (j + 1) as nat)),
        actions_at(events, i) == seq![Action::Abort] || actions_at(events, i) == Seq::<
            Action,
        >::empty(),
        i < j ==> actions_at(events, j) == Seq::<Action>::empty(),
{
    assert(build_is_over(phase_after(events, (i + 1) as nat)));
    lemma_over_stays_over(events, (i + 1) as nat, (j + 1) as nat);
    if i < j {
        lemma_over_stays_over(events, (i + 1) as nat, j as nat);
    }
}

/// The level is handed out only at the end of a build in which nothing
/// failed: every report before is of something that has succeeded.
pub proof fn lemma_finish_means_no_failure(events: Seq<Event>, i: int, j: int)
    requires
        0 <= i <= j < events.len(),
        actions_at(events, j).contains(Action::Finish) || actions_at(events, j).contains(
            Action::AssembleLevel,
        ),
    ensures
        events[i] != Event::Failed,
{
    if events[i] == Event::Failed {
        lemma_failure_ends_the_build(events, i, j);
        let actions = actions_at(events, j);
        if actions =~= seq![Action::Abort] {
            assert(actions[0] == Action::Abort);
        }
    }
}

/// The orchestrator of one build.
#[derive(Debug)]
pub struct Orchestrator {
    pub phase: Phase,
}

impl Orchestrator {
    /// An orchestrator at the start of a build.
    pub fn new() -> (orchestrator: Orchestrator)
        ensures
            orchestrator.phase == Phase::Loading,
    {
        Orchestrator { phase: Phase::Loading }
    }

    fn spawn_first(&mut self) -> (actions: Vec<Action>)
        ensures
            final(self).phase == building(),
            actions@ == first_builders(),
    {
        self.phase =
        Phase::Building {
            entities: false,
            geometry: false,
            texture: false,
            audio: false,
            physics: false,
        };
        let mut actions: Vec<Action> = Vec::new();
        actions.push(Action::Spawn(Builder::Entities));
        actions.push(Action::Spawn(Builder::Geometry));
        actions.push(Action::Spawn(Builder::Texture));
        actions.push(Action::Spawn(Builder::Audio));
        assert(actions@ =~= first_builders());
        actions
    }

    fn fail(&mut self) -> (actions: Vec<Action>)
        ensures
            final(self).phase == Phase::Failed,
            actions@ == seq![Action::Abort],
    {
        self.phase = Phase::Failed;
        let mut actions: Vec<Action> = Vec::new();
        actions.push(Action::Abort);
        assert(actions@ =~= seq![Action::Abort]);
        actions
    }

    fn finish_builder(&mut self, entities: bool, geometry: bool, texture: bool, audio: bool, physics: bool) -> (actions:
        Vec<Action>)
        ensures
            (final(self).phase, actions@) == after_finish(entities, geometry, texture, audio, physics),
    {
        let mut actions: Vec<Action> = Vec::new();
        if geometry && texture && audio && physics {
            self.phase = Phase::Writing { remaining: 3 };
            actions.push(Action::WriteArtifact(Builder::Geometry));
            actions.push(Action::WriteArtifact(Builder::Audio));
            actions.push(Action::WriteArtifact(Builder::Texture));
            actions.push(Action::AssembleLevel);
            assert(actions@ =~= closing_actions());
        } else {
            self.phase = Phase::Building { entities, geometry, texture, audio, physics };
            assert(actions@ =~= Seq::<Action>::empty());
        }
        actions
    }

    /// Takes note of what has happened and says what is to be done next.
    ///
    /// The physics world is asked for in one case only: in answer to the
    /// report that the entity world has finished, in a build in which it had
    /// not finished before.
    pub fn step(&mut self, event: Event) -> (actions: Vec<Action>)
        ensures
            (final(self).phase, actions@) == next(old(self).phase, event),
            actions@.contains(Action::Spawn(Builder::Physics)) ==> {
                &&& event == Event::Finished(Builder::Entities)
                &&& !entities_done(old(self).phase)
                &&& entities_done(final(self).phase)
            },
    {
        proof {
            if next(self.phase, event).1.contains(Action::Spawn(Builder::Physics)) {
                lemma_spawn_is_answer_to_entities(self.phase, event);
            }
        }
        match self.phase {
            Phase::Done => {
                let actions: Vec<Action> = Vec::new();
                assert(actions@ =~= Seq::<Action>::empty());
                actions
            },
            Phase::Failed => {
                let actions: Vec<Action> = Vec::new();
                assert(actions@ =~= Seq::<Action>::empty());
                actions
            },
            Phase::Loading => match event {
                Event::SceneLoaded { mesh_count } => {
                    if mesh_count == 0 {
                        self.spawn_first()
                    } else {
                        self.phase = Phase::Extracting { remaining: mesh_count };
                        let mut actions: Vec<Action> = Vec::new();
                        actions.push(Action::SpawnMeshExtractors { count: mesh_count });
                        assert(actions@ =~= seq![Action::SpawnMeshExtractors { count: mesh_count }]);
                        actions
                    }
                },
                _ => self.fail(),
            },
            Phase::Extracting { remaining } => match event {
                Event::MeshExtracted => {
                    if remaining <= 1 {
                        self.spawn_first()
                    } else {
                        self.phase = Phase::Extracting { remaining: remaining - 1 };
                        let actions: Vec<Action> = Vec::new();
                        assert(actions@ =~= Seq::<Action>::empty());
                        actions
                    }
                },
                _ => self.fail(),
            },
            Phase::Building { entities, geometry, texture, audio, physics } => match event {
                Event::Finished(Builder::Entities) => {
                    if entities {
                        self.fail()
                    } else {
                        self.phase =
                        Phase::Building { entities: true, geometry, texture, audio, physics };
                        let mut actions: Vec<Action> = Vec::new();
                        actions.push(Action::Spawn(Builder::Physics));
                        assert(actions@ =~= seq![Action::Spawn(Builder::Physics)]);
                        actions
                    }
                },
                Event::Finished(Builder::Geometry) => {
                    if geometry {
                        self.fail()
                    } else {
                        self.finish_builder(entities, true, texture, audio, physics)
                    }
                },
                Event::Finished(Builder::Texture) => {
                    if texture {
                        self.fail()
                    } else {
                        self.finish_builder(entities, geometry, true, audio, physics)
                    }
                },
                Event::Finished(Builder::Audio) => {
                    if audio {
                        self.fail()
                    } else {
                        self.finish_builder(entities, geometry, texture, true, physics)
                    }
                },
                Event::Finished(Builder::Physics) => {
                    if physics || !entities {
                        self.fail()
                    } else {
                        self.finish_builder(entities, geometry, texture, audio, true)
                    }
                },
                _ => self.fail(),
            },
            Phase::Writing { remaining } => match event {
                Event::ArtifactWritten => {
                    let mut actions: Vec<Action> = Vec::new();
                    if remaining <= 1 {
                        self.phase = Phase::Done;
                        actions.push(Action::Finish);
                        assert(actions@ =~= seq![Action::Finish]);
                    } else {
                        self.phase = Phase::Writing { remaining: remaining - 1 };
                        assert(actions@ =~= Seq::<Action>::empty());
                    }
                    actions
                },
                _ => self.fail(),
            },
        }
    }

    /// The build is over, one way or the other.
    pub fn is_over(&self) -> (b: bool)
        ensures
            b == build_is_over(self.phase),
    {
        match self.phase {
            Phase::Done => true,
            Phase::Failed => true,
            _ => false,
        }
    }
}

} // verus!
