use vstd::prelude::*;

verus! {

/// The four stages of one update cycle, in the order they run.
#[derive(Clone, Copy, PartialEq, Eq, Structural, Debug)]
pub enum Stage {
    /// Bodies and colliders for newly observed entities.
    CreateBodies,
    /// Joints whose endpoints have bodies.
    CreateJoints,
    /// One fixed timestep of the backend.
    StepWorld,
    /// Poses written back to the host transforms.
    SyncTransforms,
}

/// The stage that runs after `stage`. `step_completed` matters only after
/// the world step: a failed step abandons the cycle, so the transforms are
/// not synced and the next cycle starts over with the body stage.
pub fn next_stage(stage: Stage, step_completed: bool) -> (r: Stage)
    ensures
        stage == Stage::CreateBodies ==> r == Stage::CreateJoints,
        stage == Stage::CreateJoints ==> r == Stage::StepWorld,
        stage == Stage::StepWorld && step_completed ==> r == Stage::SyncTransforms,
        stage == Stage::StepWorld && !step_completed ==> r == Stage::CreateBodies,
        stage == Stage::SyncTransforms ==> r == Stage::CreateBodies,
{
    match stage {
        Stage::CreateBodies => Stage::CreateJoints,
        Stage::CreateJoints => Stage::StepWorld,
        Stage::StepWorld => if step_completed {
            Stage::SyncTransforms
        } else {
            Stage::CreateBodies
        },
        Stage::SyncTransforms => Stage::CreateBodies,
    }
}

} // verus!
