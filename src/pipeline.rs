use vstd::prelude::*;
use std::collections::HashMap;
use std::collections::HashSet;
use crate::body::{BodyDesc, BodyHandle, ConfigError, Entity, desc_error};

verus! {

broadcast use vstd::std_specs::hash::group_hash_axioms;

/// An entity that carries physics intent, as the host enumerates it.
#[derive(Clone, Copy, PartialEq, Eq, Structural, Debug)]
pub struct BodyIntent {
    pub entity: Entity,
    pub desc: BodyDesc,
}

/// What the body stage did for one intent.
#[derive(Clone, Copy, PartialEq, Eq, Structural, Debug)]
pub enum BodyOutcome {
    /// A new body was allocated at this handle; the backend must build it.
    Created(BodyHandle),
    /// The entity already had this body; nothing was done.
    AlreadyMapped(BodyHandle),
    /// The description was malformed; the entity stays unmapped.
    Rejected(ConfigError),
}

/// A joint declared by the host: the entity `joint` carries it and it
/// connects the bodies of `first` and `second`.
#[derive(Clone, Copy, PartialEq, Eq, Structural, Debug)]
pub struct JointDesc {
    pub joint: Entity,
    pub first: Entity,
    pub second: Entity,
}

/// What the joint stage did for one descriptor.
#[derive(Clone, Copy, PartialEq, Eq, Structural, Debug)]
pub enum JointOutcome {
    /// The joint is to be created between these two bodies.
    Created { first: BodyHandle, second: BodyHandle },
    /// The joint was created in an earlier call; nothing was done.
    AlreadyRealized,
    /// This endpoint has no body yet; the joint was skipped.
    UnresolvedEndpoint(Entity),
}

/// Why a world step did not complete.
#[derive(Clone, Copy, PartialEq, Eq, Structural, Debug)]
pub enum StepFailure {
    NumericalInstability,
    ResourceExhaustion,
}

/// The abstract state of a [`PhysicsCore`].
pub struct CoreState {
    /// Entity id to body arena index.
    pub bodies: Map<u64, u64>,
    /// Number of bodies allocated so far; the arena indices are `0..count`.
    pub count: nat,
    /// Ids of the joint entities whose joint was created.
    pub joints: Set<u64>,
}

/// The state that the pipeline owns exclusively: the entity-to-body map,
/// the size of the body arena, and the joints already realized.
pub struct PhysicsCore {
    entity_to_body: HashMap<u64, u64>,
    body_count: u64,
    realized_joints: HashSet<u64>,
}

impl View for PhysicsCore {
    type V = CoreState;

    closed spec fn view(&self) -> CoreState {
        CoreState {
            bodies: self.entity_to_body@,
            count: self.body_count as nat,
            joints: self.realized_joints@,
        }
    }
}

/// Every mapped handle lies in the arena, and no two entities share one.
pub open spec fn state_wf(s: CoreState) -> bool {
    &&& forall|e: u64| #[trigger] s.bodies.contains_key(e) ==> s.bodies[e] < s.count
    &&& forall|e1: u64, e2: u64|
        #[trigger] s.bodies.contains_key(e1) && #[trigger] s.bodies.contains_key(e2) && e1 != e2
            ==> s.bodies[e1] != s.bodies[e2]
}

/// The body stage on one intent.
pub open spec fn body_outcome(s: CoreState, it: BodyIntent) -> BodyOutcome {
    if s.bodies.contains_key(it.entity.id) {
        BodyOutcome::AlreadyMapped(BodyHandle { index: s.bodies[it.entity.id] })
    } else {
        match desc_error(it.desc) {
            Some(e) => BodyOutcome::Rejected(e),
            None => BodyOutcome::Created(BodyHandle { index: s.count as u64 }),
        }
    }
}

pub open spec fn body_step(s: CoreState, it: BodyIntent) -> CoreState {
    if !s.bodies.contains_key(it.entity.id) && desc_error(it.desc) is None {
        CoreState {
            bodies: s.bodies.insert(it.entity.id, s.count as u64),
            count: s.count + 1,
            joints: s.joints,
        }
    } else {
        s
    }
}

/// The body stage on a list of intents, taken in order.
pub open spec fn materialize(s: CoreState, xs: Seq<BodyIntent>) -> CoreState
    decreases xs.len(),
{
    if xs.len() == 0 {
        s
    } else {
        body_step(materialize(s, xs.drop_last()), xs.last())
    }
}

/// The joint stage on one descriptor.
pub open spec fn joint_outcome(s: CoreState, d: JointDesc) -> JointOutcome {
    if s.joints.contains(d.joint.id) {
        JointOutcome::AlreadyRealized
    } else if !s.bodies.contains_key(d.first.id) {
        JointOutcome::UnresolvedEndpoint(d.first)
    } else if !s.bodies.contains_key(d.second.id) {
        JointOutcome::UnresolvedEndpoint(d.second)
    } else {
        JointOutcome::Created {
            first: BodyHandle { index: s.bodies[d.first.id] },
            second: BodyHandle { index: s.bodies[d.second.id] },
        }
    }
}

pub open spec fn joint_step(s: CoreState, d: JointDesc) -> CoreState {
    if joint_outcome(s, d) is Created {
        CoreState { bodies: s.bodies, count: s.count, joints: s.joints.insert(d.joint.id) }
    } else {
        s
    }
}

/// The joint stage on a list of descriptors, taken in order.
pub open spec fn realize(s: CoreState, ds: Seq<JointDesc>) -> CoreState
    decreases ds.len(),
{
    if ds.len() == 0 {
        s
    } else {
        joint_step(realize(s, ds.drop_last()), ds.last())
    }
}

/// The transform of the `i`-th host entity after a completed step.
pub open spec fn synced<P>(s: CoreState, entities: Seq<Entity>, poses: Seq<P>, old_transforms: Seq<P>, i: int) -> P {
    if s.bodies.contains_key(entities[i].id) {
        poses[s.bodies[entities[i].id] as int]
    } else {
        old_transforms[i]
    }
}

impl PhysicsCore {
    pub closed spec fn wf(&self) -> bool {
        state_wf(self@)
    }

    /// A core with no bodies and no joints.
    pub fn new() -> (r: Self)
        ensures
            r.wf(),
            r@.bodies == Map::<u64, u64>::empty(),
            r@.count == 0,
            r@.joints == Set::<u64>::empty(),
    {
        PhysicsCore {
            entity_to_body: HashMap::new(),
            body_count: 0,
            realized_joints: HashSet::new(),
        }
    }

    /// Number of bodies allocated; the valid handles are below it.
    pub fn body_count(&self) -> (r: u64)
        ensures
            r == self@.count,
    {
        self.body_count
    }

    /// The body of an entity, if it has one.
    pub fn body_of(&self, entity: Entity) -> (r: Option<BodyHandle>)
        ensures
            match r {
                Some(h) => self@.bodies.contains_key(entity.id) && h.index == self@.bodies[entity.id],
                None => !self@.bodies.contains_key(entity.id),
            },
    {
        match self.entity_to_body.get(&entity.id) {
            Some(h) => Some(BodyHandle { index: *h }),
            None => None,
        }
    }

    /// Whether the joint carried by this entity was created.
    pub fn is_realized(&self, joint: Entity) -> (r: bool)
        ensures
            r == self@.joints.contains(joint.id),
    {
        self.realized_joints.contains(&joint.id)
    }
}


proof fn lemma_body_step_wf(s: CoreState, it: BodyIntent)
    requires
        state_wf(s),
        s.count <= u64::MAX,
    ensures
        state_wf(body_step(s, it)),
        body_step(s, it).count <= s.count + 1,
{
    let t = body_step(s, it);
    if t != s {
        assert forall|e1: u64, e2: u64|
            #[trigger] t.bodies.contains_key(e1) && #[trigger] t.bodies.contains_key(e2) && e1 != e2
            implies t.bodies[e1] != t.bodies[e2] by {
            if e1 != it.entity.id && e2 != it.entity.id {
                assert(s.bodies.contains_key(e1) && s.bodies.contains_key(e2));
            } else if e1 == it.entity.id {
                assert(s.bodies.contains_key(e2));
            } else {
                assert(s.bodies.contains_key(e1));
            }
        }
    }
}

impl PhysicsCore {
    /// The body stage: gives each intent whose entity has no body yet and
    /// whose description is valid a fresh arena index. The `i`-th outcome
    /// says what was done for the `i`-th intent.
    pub fn create_bodies(&mut self, intents: &Vec<BodyIntent>) -> (r: Vec<BodyOutcome>)
        requires
            old(self).wf(),
            old(self)@.count + intents@.len() <= u64::MAX,
        ensures
            final(self).wf(),
            final(self)@ == materialize(old(self)@, intents@),
            r@.len() == intents@.len(),
            forall|i: int| 0 <= i < intents@.len() ==>
                #[trigger] r@[i] == body_outcome(materialize(old(self)@, intents@.take(i)), intents@[i]),
    {
        let ghost s0 = self@;
        let mut out: Vec<BodyOutcome> = Vec::new();
        let mut i: usize = 0;
        while i < intents.len()
            invariant
                0 <= i <= intents@.len(),
                state_wf(self@),
                self@ == materialize(s0, intents@.take(i as int)),
                self@.count <= s0.count + i,
                s0.count + intents@.len() <= u64::MAX,
                out@.len() == i,
                forall|j: int| 0 <= j < i ==>
                    #[trigger] out@[j] == body_outcome(materialize(s0, intents@.take(j)), intents@[j]),
            decreases intents@.len() - i,
        {
            let it = intents[i];
            proof {
                assert(intents@.take(i + 1).drop_last() == intents@.take(i as int));
                assert(intents@.take(i + 1).last() == it);
                lemma_body_step_wf(self@, it);
            }
            let o = match self.entity_to_body.get(&it.entity.id) {
                Some(h) => BodyOutcome::AlreadyMapped(BodyHandle { index: *h }),
                None => match it.desc.validate() {
                    Err(e) => BodyOutcome::Rejected(e),
                    Ok(()) => {
                        let h = self.body_count;
                        self.entity_to_body.insert(it.entity.id, h);
                        self.body_count = h + 1;
                        BodyOutcome::Created(BodyHandle { index: h })
                    },
                },
            };
            out.push(o);
            i = i + 1;
        }
        proof {
            assert(intents@.take(intents@.len() as int) == intents@);
        }
        out
    }
}

proof fn lemma_realize_keeps_bodies(s: CoreState, ds: Seq<JointDesc>)
    ensures
        realize(s, ds).bodies == s.bodies,
        realize(s, ds).count == s.count,
    decreases ds.len(),
{
    if ds.len() > 0 {
        lemma_realize_keeps_bodies(s, ds.drop_last());
    }
}

impl PhysicsCore {
    /// The joint stage: for each descriptor not realized yet, resolves both
    /// endpoints to their bodies. Where both have one, the joint is recorded
    /// as realized and its handles are returned; where one has none, that
    /// endpoint is reported and the joint is skipped. The `i`-th outcome says
    /// what was done for the `i`-th descriptor. Bodies are left as they are.
    pub fn create_joints(&mut self, descs: &Vec<JointDesc>) -> (r: Vec<JointOutcome>)
        requires
            old(self).wf(),
        ensures
            final(self).wf(),
            final(self)@ == realize(old(self)@, descs@),
            final(self)@.bodies == old(self)@.bodies,
            final(self)@.count == old(self)@.count,
            r@.len() == descs@.len(),
            forall|i: int| 0 <= i < descs@.len() ==>
                #[trigger] r@[i] == joint_outcome(realize(old(self)@, descs@.take(i)), descs@[i]),
    {
        let ghost s0 = self@;
        let mut out: Vec<JointOutcome> = Vec::new();
        let mut i: usize = 0;
        while i < descs.len()
            invariant
                0 <= i <= descs@.len(),
                state_wf(self@),
                self@ == realize(s0, descs@.take(i as int)),
                out@.len() == i,
                forall|j: int| 0 <= j < i ==>
                    #[trigger] out@[j] == joint_outcome(realize(s0, descs@.take(j)), descs@[j]),
            decreases descs@.len() - i,
        {
            let d = descs[i];
            proof {
                assert(descs@.take(i + 1).drop_last() == descs@.take(i as int));
                assert(descs@.take(i + 1).last() == d);
                lemma_realize_keeps_bodies(s0, descs@.take(i as int));
            }
            let o = if self.realized_joints.contains(&d.joint.id) {
                JointOutcome::AlreadyRealized
            } else {
                match self.entity_to_body.get(&d.first.id) {
                    None => JointOutcome::UnresolvedEndpoint(d.first),
                    Some(h1) => match self.entity_to_body.get(&d.second.id) {
                        None => JointOutcome::UnresolvedEndpoint(d.second),
                        Some(h2) => JointOutcome::Created {
                            first: BodyHandle { index: *h1 },
                            second: BodyHandle { index: *h2 },
                        },
                    },
                }
            };
            if matches!(o, JointOutcome::Created { .. }) {
                self.realized_joints.insert(d.joint.id);
            }
            out.push(o);
            i = i + 1;
        }
        proof {
            assert(descs@.take(descs@.len() as int) == descs@);
            lemma_realize_keeps_bodies(s0, descs@);
        }
        out
    }

    /// The transform stage. After a completed step, the transform of each
    /// host entity that has a body becomes the pose of that body, and the
    /// others keep theirs. After a failed step, no transform changes and the
    /// failure is returned.
    pub fn sync_transforms<P: Copy>(
        &self,
        step: Result<(), StepFailure>,
        entities: &Vec<Entity>,
        poses: &Vec<P>,
        transforms: &mut Vec<P>,
    ) -> (r: Result<(), StepFailure>)
        requires
            self.wf(),
            poses@.len() == self@.count,
            old(transforms)@.len() == entities@.len(),
        ensures
            r == step,
            step is Err ==> final(transforms)@ == old(transforms)@,
            step is Ok ==> final(transforms)@.len() == old(transforms)@.len(),
            step is Ok ==> forall|i: int| 0 <= i < entities@.len() ==>
                #[trigger] final(transforms)@[i] == synced(self@, entities@, poses@, old(transforms)@, i),
    {
        if step.is_err() {
            return step;
        }
        let ghost t0 = transforms@;
        let mut i: usize = 0;
        while i < entities.len()
            invariant
                0 <= i <= entities@.len(),
                state_wf(self@),
                poses@.len() == self@.count,
                transforms@.len() == entities@.len(),
                t0.len() == entities@.len(),
                forall|j: int| 0 <= j < i ==>
                    #[trigger] transforms@[j] == synced(self@, entities@, poses@, t0, j),
                forall|j: int| i <= j < entities@.len() ==> #[trigger] transforms@[j] == t0[j],
            decreases entities@.len() - i,
        {
            let e = entities[i];
            match self.entity_to_body.get(&e.id) {
                Some(h) => {
                    let n: usize = poses.len();
                    proof {
                        assert(self@.bodies.contains_key(e.id));
                    }
                    assert((*h as int) < n as int);
                    transforms[i] = poses[*h as usize];
                },
                None => {},
            }
            assert(transforms@[i as int] == synced(self@, entities@, poses@, t0, i as int));
            i = i + 1;
        }
        step
    }
}

proof fn lemma_materialize_grows(s: CoreState, xs: Seq<BodyIntent>)
    ensures
        forall|e: u64| #[trigger] s.bodies.contains_key(e) ==>
            materialize(s, xs).bodies.contains_key(e) && materialize(s, xs).bodies[e] == s.bodies[e],
        materialize(s, xs).count >= s.count,
        materialize(s, xs).joints == s.joints,
    decreases xs.len(),
{
    if xs.len() > 0 {
        lemma_materialize_grows(s, xs.drop_last());
    }
}

proof fn lemma_materialize_covers(s: CoreState, xs: Seq<BodyIntent>, i: int)
    requires
        0 <= i < xs.len(),
        desc_error(xs[i].desc) is None,
    ensures
        materialize(s, xs).bodies.contains_key(xs[i].entity.id),
    decreases xs.len(),
{
    let p = materialize(s, xs.drop_last());
    if i < xs.len() - 1 {
        lemma_materialize_covers(s, xs.drop_last(), i);
        assert(xs.drop_last()[i] == xs[i]);
    }
    assert(p.bodies.contains_key(xs[i].entity.id) ==> body_step(p, xs.last()).bodies.contains_key(
        xs[i].entity.id,
    ));
}

proof fn lemma_materialize_fixed(s: CoreState, xs: Seq<BodyIntent>)
    requires
        forall|i: int| 0 <= i < xs.len() && desc_error(#[trigger] xs[i].desc) is None
            ==> s.bodies.contains_key(xs[i].entity.id),
    ensures
        materialize(s, xs) == s,
    decreases xs.len(),
{
    if xs.len() > 0 {
        assert forall|i: int| 0 <= i < xs.drop_last().len() && desc_error(#[trigger] xs.drop_last()[i].desc) is None
            implies s.bodies.contains_key(xs.drop_last()[i].entity.id) by {
            assert(xs.drop_last()[i] == xs[i]);
        }
        lemma_materialize_fixed(s, xs.drop_last());
        assert(desc_error(xs[xs.len() - 1].desc) is None ==> s.bodies.contains_key(xs[xs.len() - 1].entity.id));
    }
}

/// Body creation is idempotent: after the body stage, every entity of the
/// list with a valid description has a body, entities that had one keep it,
/// and running the stage again on the same list creates no body and changes
/// nothing: each valid entity is reported as already mapped, to the same
/// handle.
pub proof fn lemma_create_bodies_idempotent(s: CoreState, xs: Seq<BodyIntent>)
    ensures
        ({
            let t = materialize(s, xs);
            &&& forall|i: int| 0 <= i < xs.len() && desc_error(#[trigger] xs[i].desc) is None
                ==> t.bodies.contains_key(xs[i].entity.id)
            &&& forall|e: u64| #[trigger] s.bodies.contains_key(e)
                ==> t.bodies.contains_key(e) && t.bodies[e] == s.bodies[e]
            &&& materialize(t, xs) == t
            &&& forall|i: int| 0 <= i < xs.len() && desc_error(#[trigger] xs[i].desc) is None
                ==> body_outcome(materialize(t, xs.take(i)), xs[i])
                    == BodyOutcome::AlreadyMapped(BodyHandle { index: t.bodies[xs[i].entity.id] })
        }),
{
    let t = materialize(s, xs);
    lemma_materialize_grows(s, xs);
    assert forall|i: int| 0 <= i < xs.len() && desc_error(#[trigger] xs[i].desc) is None
        implies t.bodies.contains_key(xs[i].entity.id) by {
        lemma_materialize_covers(s, xs, i);
    }
    lemma_materialize_fixed(t, xs);
    assert forall|i: int| 0 <= i < xs.len() && desc_error(#[trigger] xs[i].desc) is None
        implies body_outcome(materialize(t, xs.take(i)), xs[i])
            == BodyOutcome::AlreadyMapped(BodyHandle { index: t.bodies[xs[i].entity.id] }) by {
        assert forall|j: int| 0 <= j < xs.take(i).len() && desc_error(#[trigger] xs.take(i)[j].desc) is None
            implies t.bodies.contains_key(xs.take(i)[j].entity.id) by {
            assert(xs.take(i)[j] == xs[j]);
        }
        lemma_materialize_fixed(t, xs.take(i));
    }
}

/// Both endpoints of the joint have a body.
pub open spec fn endpoints_mapped(s: CoreState, d: JointDesc) -> bool {
    s.bodies.contains_key(d.first.id) && s.bodies.contains_key(d.second.id)
}

/// Some descriptor of the list is carried by the joint entity `id`.
pub open spec fn declares(ds: Seq<JointDesc>, id: u64) -> bool {
    exists|j: int| 0 <= j < ds.len() && #[trigger] ds[j].joint.id == id
}

/// How many joints carried by the entity `id` the joint stage creates when
/// it runs on `ds` from `s`.
pub open spec fn created_count(s: CoreState, ds: Seq<JointDesc>, id: u64) -> nat
    decreases ds.len(),
{
    if ds.len() == 0 {
        0
    } else {
        created_count(s, ds.drop_last(), id) + if ds.last().joint.id == id && joint_outcome(
            realize(s, ds.drop_last()),
            ds.last(),
        ) is Created {
            1nat
        } else {
            0nat
        }
    }
}

proof fn lemma_joint_count(s: CoreState, ds: Seq<JointDesc>, d: JointDesc)
    requires
        !s.joints.contains(d.joint.id),
        forall|j: int| 0 <= j < ds.len() && #[trigger] ds[j].joint.id == d.joint.id ==> ds[j] == d,
    ensures
        endpoints_mapped(s, d) ==> created_count(s, ds, d.joint.id) == (if declares(ds, d.joint.id) {
            1nat
        } else {
            0nat
        }) && realize(s, ds).joints.contains(d.joint.id) == declares(ds, d.joint.id),
        !endpoints_mapped(s, d) ==> created_count(s, ds, d.joint.id) == 0 && !realize(
            s,
            ds,
        ).joints.contains(d.joint.id),
    decreases ds.len(),
{
    if ds.len() > 0 {
        let p = ds.drop_last();
        assert forall|j: int| 0 <= j < p.len() && #[trigger] p[j].joint.id == d.joint.id implies p[j] == d by {
            assert(p[j] == ds[j]);
        }
        lemma_joint_count(s, p, d);
        lemma_realize_keeps_bodies(s, p);
        if declares(p, d.joint.id) {
            let j = choose|j: int| 0 <= j < p.len() && #[trigger] p[j].joint.id == d.joint.id;
            assert(ds[j] == p[j]);
        }
        if declares(ds, d.joint.id) && ds.last().joint.id != d.joint.id {
            let j = choose|j: int| 0 <= j < ds.len() && #[trigger] ds[j].joint.id == d.joint.id;
            assert(p[j] == ds[j]);
        }
        if ds.last().joint.id == d.joint.id {
            assert(ds[ds.len() - 1].joint.id == d.joint.id);
        }
    }
}

/// Each joint is created exactly once: where a joint entity carries one
/// descriptor and its joint was not created before, running the joint stage
/// on a list that holds the descriptor creates exactly one joint for it when
/// both endpoints have a body, and then marks it realized. When an endpoint
/// has none, no joint is created for it, it stays unrealized, and the
/// descriptor is answered with an unresolved endpoint.
pub proof fn lemma_joint_created_once(s: CoreState, ds: Seq<JointDesc>, i: int)
    requires
        0 <= i < ds.len(),
        !s.joints.contains(ds[i].joint.id),
        forall|j: int| 0 <= j < ds.len() && #[trigger] ds[j].joint.id == ds[i].joint.id ==> ds[j] == ds[i],
    ensures
        endpoints_mapped(s, ds[i]) ==> created_count(s, ds, ds[i].joint.id) == 1
            && realize(s, ds).joints.contains(ds[i].joint.id),
        !endpoints_mapped(s, ds[i]) ==> created_count(s, ds, ds[i].joint.id) == 0
            && !realize(s, ds).joints.contains(ds[i].joint.id)
            && joint_outcome(realize(s, ds.take(i)), ds[i]) is UnresolvedEndpoint,
{
    let d = ds[i];
    lemma_joint_count(s, ds, d);
    assert(declares(ds, d.joint.id));
    let p = ds.take(i);
    assert forall|j: int| 0 <= j < p.len() && #[trigger] p[j].joint.id == d.joint.id implies p[j] == d by {
        assert(p[j] == ds[j]);
    }
    lemma_joint_count(s, p, d);
    lemma_realize_keeps_bodies(s, p);
}

} // verus!
