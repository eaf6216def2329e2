use physics_pipeline::body::{BodyDesc, BodyHandle, BodyKind, ConfigError, Entity, Shape};
use physics_pipeline::pipeline::{
    BodyIntent, BodyOutcome, JointDesc, JointOutcome, PhysicsCore, StepFailure,
};
use physics_pipeline::schedule::{next_stage, Stage};

fn ball(id: u64, radius: u32, mass: u32) -> BodyIntent {
    BodyIntent {
        entity: Entity { id },
        desc: BodyDesc { shape: Shape::Ball { radius }, kind: BodyKind::Dynamic { mass } },
    }
}

fn joint(id: u64, first: u64, second: u64) -> JointDesc {
    JointDesc { joint: Entity { id }, first: Entity { id: first }, second: Entity { id: second } }
}

#[test]
fn new_core_is_empty() {
    let core = PhysicsCore::new();
    assert_eq!(core.body_count(), 0);
    assert_eq!(core.body_of(Entity { id: 1 }), None);
    assert!(!core.is_realized(Entity { id: 1 }));
}

#[test]
fn bodies_get_consecutive_handles() {
    let mut core = PhysicsCore::new();
    let out = core.create_bodies(&vec![ball(10, 1000, 1000), ball(20, 500, 2000)]);
    assert_eq!(
        out,
        vec![
            BodyOutcome::Created(BodyHandle { index: 0 }),
            BodyOutcome::Created(BodyHandle { index: 1 })
        ]
    );
    assert_eq!(core.body_count(), 2);
    assert_eq!(core.body_of(Entity { id: 10 }), Some(BodyHandle { index: 0 }));
    assert_eq!(core.body_of(Entity { id: 20 }), Some(BodyHandle { index: 1 }));
}

#[test]
fn second_cycle_creates_no_body() {
    let mut core = PhysicsCore::new();
    let intents = vec![ball(7, 1000, 1000), ball(8, 1000, 1000)];
    core.create_bodies(&intents);
    let again = core.create_bodies(&intents);
    assert_eq!(
        again,
        vec![
            BodyOutcome::AlreadyMapped(BodyHandle { index: 0 }),
            BodyOutcome::AlreadyMapped(BodyHandle { index: 1 })
        ]
    );
    assert_eq!(core.body_count(), 2);
    assert_eq!(core.body_of(Entity { id: 7 }), Some(BodyHandle { index: 0 }));
}

#[test]
fn entity_listed_twice_gets_one_body() {
    let mut core = PhysicsCore::new();
    let out = core.create_bodies(&vec![ball(3, 1000, 1000), ball(3, 1000, 1000)]);
    assert_eq!(
        out,
        vec![
            BodyOutcome::Created(BodyHandle { index: 0 }),
            BodyOutcome::AlreadyMapped(BodyHandle { index: 0 })
        ]
    );
    assert_eq!(core.body_count(), 1);
}

#[test]
fn malformed_shape_is_rejected_alone() {
    let mut core = PhysicsCore::new();
    let flat = BodyIntent {
        entity: Entity { id: 1 },
        desc: BodyDesc {
            shape: Shape::Cuboid { half_x: 1, half_y: 0, half_z: 1 },
            kind: BodyKind::Static,
        },
    };
    let out = core.create_bodies(&vec![flat, ball(2, 1000, 1000)]);
    assert_eq!(
        out,
        vec![
            BodyOutcome::Rejected(ConfigError::NonPositiveDimension),
            BodyOutcome::Created(BodyHandle { index: 0 })
        ]
    );
    assert_eq!(core.body_of(Entity { id: 1 }), None);
    assert_eq!(core.body_of(Entity { id: 2 }), Some(BodyHandle { index: 0 }));
}

#[test]
fn massless_dynamic_body_is_rejected() {
    let mut core = PhysicsCore::new();
    let out = core.create_bodies(&vec![ball(1, 1000, 0)]);
    assert_eq!(out, vec![BodyOutcome::Rejected(ConfigError::NonPositiveMass)]);
    assert_eq!(core.body_count(), 0);
}

#[test]
fn validate_checks_shape_before_mass() {
    let d = BodyDesc { shape: Shape::Capsule { half_height: 0, radius: 5 }, kind: BodyKind::Dynamic { mass: 0 } };
    assert_eq!(d.validate(), Err(ConfigError::NonPositiveDimension));
    let k = BodyDesc { shape: Shape::Capsule { half_height: 3, radius: 5 }, kind: BodyKind::Kinematic };
    assert_eq!(k.validate(), Ok(()));
}

#[test]
fn joint_between_mapped_entities_is_created_once() {
    let mut core = PhysicsCore::new();
    core.create_bodies(&vec![ball(1, 1000, 1000), ball(2, 1000, 1000)]);
    let descs = vec![joint(100, 2, 1)];
    let out = core.create_joints(&descs);
    assert_eq!(
        out,
        vec![JointOutcome::Created { first: BodyHandle { index: 1 }, second: BodyHandle { index: 0 } }]
    );
    assert!(core.is_realized(Entity { id: 100 }));
    let again = core.create_joints(&descs);
    assert_eq!(again, vec![JointOutcome::AlreadyRealized]);
}

#[test]
fn joint_with_unmapped_endpoint_is_skipped() {
    let mut core = PhysicsCore::new();
    core.create_bodies(&vec![ball(1, 1000, 1000)]);
    let out = core.create_joints(&vec![joint(100, 1, 9), joint(101, 8, 1)]);
    assert_eq!(
        out,
        vec![
            JointOutcome::UnresolvedEndpoint(Entity { id: 9 }),
            JointOutcome::UnresolvedEndpoint(Entity { id: 8 })
        ]
    );
    assert!(!core.is_realized(Entity { id: 100 }));
    assert!(!core.is_realized(Entity { id: 101 }));
    assert_eq!(core.body_count(), 1);
}

#[test]
fn skipped_joint_is_created_once_its_endpoint_has_a_body() {
    let mut core = PhysicsCore::new();
    core.create_bodies(&vec![ball(1, 1000, 1000)]);
    let descs = vec![joint(100, 1, 2)];
    assert_eq!(core.create_joints(&descs), vec![JointOutcome::UnresolvedEndpoint(Entity { id: 2 })]);
    core.create_bodies(&vec![ball(2, 1000, 1000)]);
    assert_eq!(
        core.create_joints(&descs),
        vec![JointOutcome::Created { first: BodyHandle { index: 0 }, second: BodyHandle { index: 1 } }]
    );
}

#[test]
fn sync_copies_poses_of_mapped_entities() {
    let mut core = PhysicsCore::new();
    core.create_bodies(&vec![ball(5, 1000, 1000), ball(6, 1000, 1000)]);
    let entities = vec![Entity { id: 6 }, Entity { id: 42 }, Entity { id: 5 }];
    let poses: Vec<(f32, f32, f32)> = vec![(1.0, 2.0, 3.0), (4.0, 5.0, 6.0)];
    let mut transforms = vec![(0.0, 0.0, 0.0), (9.0, 9.0, 9.0), (0.0, 0.0, 0.0)];
    let r = core.sync_transforms(Ok(()), &entities, &poses, &mut transforms);
    assert_eq!(r, Ok(()));
    assert_eq!(transforms, vec![(4.0, 5.0, 6.0), (9.0, 9.0, 9.0), (1.0, 2.0, 3.0)]);
}

#[test]
fn failed_step_leaves_transforms_unchanged() {
    let mut core = PhysicsCore::new();
    core.create_bodies(&vec![ball(5, 1000, 1000)]);
    let entities = vec![Entity { id: 5 }];
    let poses: Vec<i64> = vec![77];
    let mut transforms: Vec<i64> = vec![1];
    let r = core.sync_transforms(
        Err(StepFailure::NumericalInstability),
        &entities,
        &poses,
        &mut transforms,
    );
    assert_eq!(r, Err(StepFailure::NumericalInstability));
    assert_eq!(transforms, vec![1]);
}

#[test]
fn stages_run_in_order() {
    assert_eq!(next_stage(Stage::CreateBodies, false), Stage::CreateJoints);
    assert_eq!(next_stage(Stage::CreateJoints, false), Stage::StepWorld);
    assert_eq!(next_stage(Stage::StepWorld, true), Stage::SyncTransforms);
    assert_eq!(next_stage(Stage::SyncTransforms, true), Stage::CreateBodies);
}

#[test]
fn failed_step_skips_sync() {
    assert_eq!(next_stage(Stage::StepWorld, false), Stage::CreateBodies);
}
