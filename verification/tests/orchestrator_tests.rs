use thunder::orchestrator::{Action, Builder, Event, Orchestrator, Phase};

fn run(events: &[Event]) -> (Orchestrator, Vec<Vec<Action>>) {
    let mut orchestrator = Orchestrator::new();
    let answers = events.iter().map(|e| orchestrator.step(*e)).collect();
    (orchestrator, answers)
}

fn first_builders() -> Vec<Action> {
    vec![
        Action::Spawn(Builder::Entities),
        Action::Spawn(Builder::Geometry),
        Action::Spawn(Builder::Texture),
        Action::Spawn(Builder::Audio),
    ]
}

#[test]
fn a_build_starts_by_loading_the_scene() {
    assert_eq!(Orchestrator::new().phase, Phase::Loading);
    assert!(!Orchestrator::new().is_over());
}

#[test]
fn one_extractor_is_spawned_for_each_mesh() {
    let (orchestrator, answers) = run(&[Event::SceneLoaded { mesh_count: 2 }]);
    assert_eq!(answers[0], vec![Action::SpawnMeshExtractors { count: 2 }]);
    assert_eq!(orchestrator.phase, Phase::Extracting { remaining: 2 });
}

#[test]
fn the_builders_wait_for_the_last_mesh() {
    let (orchestrator, answers) = run(&[
        Event::SceneLoaded { mesh_count: 2 },
        Event::MeshExtracted,
        Event::MeshExtracted,
    ]);
    assert!(answers[1].is_empty());
    assert_eq!(answers[2], first_builders());
    assert_eq!(
        orchestrator.phase,
        Phase::Building { entities: false, geometry: false, texture: false, audio: false, physics: false }
    );
}

#[test]
fn a_scene_without_meshes_goes_straight_to_the_builders() {
    let (_, answers) = run(&[Event::SceneLoaded { mesh_count: 0 }]);
    assert_eq!(answers[0], first_builders());
}

#[test]
fn physics_is_spawned_when_entities_have_finished() {
    let (_, answers) = run(&[
        Event::SceneLoaded { mesh_count: 0 },
        Event::Finished(Builder::Geometry),
        Event::Finished(Builder::Audio),
        Event::Finished(Builder::Entities),
    ]);
    assert!(answers[1].is_empty());
    assert!(answers[2].is_empty());
    assert_eq!(answers[3], vec![Action::Spawn(Builder::Physics)]);
}

#[test]
fn physics_is_never_spawned_before_entities_have_finished() {
    let others = [Builder::Geometry, Builder::Texture, Builder::Audio];
    // Every order in which the three other builders can finish before the entities do.
    for a in 0..3 {
        for b in 0..3 {
            for c in 0..3 {
                if a == b || b == c || a == c {
                    continue;
                }
                let (_, answers) = run(&[
                    Event::SceneLoaded { mesh_count: 1 },
                    Event::MeshExtracted,
                    Event::Finished(others[a]),
                    Event::Finished(others[b]),
                    Event::Finished(others[c]),
                ]);
                for answer in &answers {
                    assert!(!answer.contains(&Action::Spawn(Builder::Physics)));
                    assert!(!answer.contains(&Action::AssembleLevel));
                }
            }
        }
    }
}

#[test]
fn the_level_is_assembled_when_the_last_builder_has_finished() {
    let (orchestrator, answers) = run(&[
        Event::SceneLoaded { mesh_count: 0 },
        Event::Finished(Builder::Entities),
        Event::Finished(Builder::Physics),
        Event::Finished(Builder::Texture),
        Event::Finished(Builder::Audio),
        Event::Finished(Builder::Geometry),
    ]);
    assert!(answers[2].is_empty());
    assert!(answers[3].is_empty());
    assert!(answers[4].is_empty());
    assert_eq!(
        answers[5],
        vec![
            Action::WriteArtifact(Builder::Geometry),
            Action::WriteArtifact(Builder::Audio),
            Action::WriteArtifact(Builder::Texture),
            Action::AssembleLevel,
        ]
    );
    assert_eq!(orchestrator.phase, Phase::Writing { remaining: 3 });
}

#[test]
fn the_build_is_done_when_the_three_files_are_written() {
    let (orchestrator, answers) = run(&[
        Event::SceneLoaded { mesh_count: 0 },
        Event::Finished(Builder::Entities),
        Event::Finished(Builder::Geometry),
        Event::Finished(Builder::Texture),
        Event::Finished(Builder::Audio),
        Event::Finished(Builder::Physics),
        Event::ArtifactWritten,
        Event::ArtifactWritten,
        Event::ArtifactWritten,
    ]);
    assert!(answers[6].is_empty());
    assert!(answers[7].is_empty());
    assert_eq!(answers[8], vec![Action::Finish]);
    assert_eq!(orchestrator.phase, Phase::Done);
    assert!(orchestrator.is_over());
}

#[test]
fn the_first_failure_ends_the_build() {
    let (mut orchestrator, answers) = run(&[
        Event::SceneLoaded { mesh_count: 0 },
        Event::Finished(Builder::Geometry),
        Event::Failed,
    ]);
    assert_eq!(answers[2], vec![Action::Abort]);
    assert_eq!(orchestrator.phase, Phase::Failed);
    assert!(orchestrator.is_over());
    // Nothing more is asked for, whatever is reported.
    assert!(orchestrator.step(Event::Finished(Builder::Entities)).is_empty());
    assert!(orchestrator.step(Event::ArtifactWritten).is_empty());
    assert_eq!(orchestrator.phase, Phase::Failed);
}

#[test]
fn a_scene_that_cannot_be_loaded_writes_no_level() {
    let (orchestrator, answers) = run(&[Event::Failed]);
    assert_eq!(answers[0], vec![Action::Abort]);
    assert_eq!(orchestrator.phase, Phase::Failed);
    for answer in &answers {
        assert!(!answer.contains(&Action::AssembleLevel));
        assert!(!answer.contains(&Action::Finish));
    }
}

#[test]
fn what_cannot_have_happened_ends_the_build() {
    let (orchestrator, answers) = run(&[
        Event::SceneLoaded { mesh_count: 0 },
        Event::Finished(Builder::Physics),
    ]);
    assert_eq!(answers[1], vec![Action::Abort]);
    assert_eq!(orchestrator.phase, Phase::Failed);
    let (orchestrator, answers) = run(&[
        Event::SceneLoaded { mesh_count: 0 },
        Event::Finished(Builder::Entities),
        Event::Finished(Builder::Entities),
    ]);
    assert_eq!(answers[2], vec![Action::Abort]);
    assert_eq!(orchestrator.phase, Phase::Failed);
    let (orchestrator, _) = run(&[Event::MeshExtracted]);
    assert_eq!(orchestrator.phase, Phase::Failed);
}

#[test]
fn a_finished_build_asks_for_nothing_more() {
    let (mut orchestrator, _) = run(&[
        Event::SceneLoaded { mesh_count: 0 },
        Event::Finished(Builder::Entities),
        Event::Finished(Builder::Geometry),
        Event::Finished(Builder::Texture),
        Event::Finished(Builder::Audio),
        Event::Finished(Builder::Physics),
        Event::ArtifactWritten,
        Event::ArtifactWritten,
        Event::ArtifactWritten,
    ]);
    assert!(orchestrator.step(Event::Failed).is_empty());
    assert_eq!(orchestrator.phase, Phase::Done);
}
