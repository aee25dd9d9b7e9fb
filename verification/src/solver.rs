use crate::body::{resolves, solver_dofs, BodySet};
use crate::constraint::{assemble_constraints, layout, Constraint, ConstraintSet};
use crate::island::{
    check_island, internal_handles, island_is_dynamic, island_ndofs, lemma_numbering_keeps_dofs,
    number_island, numbered, IslandStatus,
};
use crate::jacobian::{
    buffer_demand, lemma_demand_depends_on_dofs, region_demand, JacobianSizes, Region,
};
use crate::joints::{stored_joints, JointSummary, ManifoldSummary};
use slab::Slab;
use vstd::prelude::*;

verus! {

/// The phases of one simulation tick, in the order in which they run.
#[derive(Clone, Copy, Debug, PartialEq, Eq, Structural)]
pub enum Phase {
    Assemble,
    SolveVelocity,
    CacheImpulses,
    Integrate,
    SolvePosition,
    /// The tick is over.
    Done,
}

impl Phase {
    /// Position of the phase within a tick.
    pub open spec fn rank(self) -> nat {
        match self {
            Phase::Assemble => 0,
            Phase::SolveVelocity => 1,
            Phase::CacheImpulses => 2,
            Phase::Integrate => 3,
            Phase::SolvePosition => 4,
            Phase::Done => 5,
        }
    }

    /// First phase of a tick.
    pub fn first() -> (p: Phase)
        ensures
            p == Phase::Assemble,
    {
        Phase::Assemble
    }

    /// The phase that follows; the end of a tick is followed by nothing.
    pub fn next(self) -> (p: Phase)
        ensures
            self != Phase::Done ==> p.rank() == self.rank() + 1,
            self == Phase::Done ==> p == Phase::Done,
    {
        match self {
            Phase::Assemble => Phase::SolveVelocity,
            Phase::SolveVelocity => Phase::CacheImpulses,
            Phase::CacheImpulses => Phase::Integrate,
            Phase::Integrate => Phase::SolvePosition,
            Phase::SolvePosition => Phase::Done,
            Phase::Done => Phase::Done,
        }
    }
}

/// Two phases of the same rank are the same phase, and no rank lies beyond
/// the end of a tick: a tick walks through the phases one by one, without a
/// branch.
pub proof fn lemma_phases_are_sequential(p: Phase, q: Phase)
    ensures
        p.rank() <= Phase::Done.rank(),
        p.rank() == q.rank() ==> p == q,
{
}

/// Why a step could not be assembled.
#[derive(Clone, Copy, Debug, PartialEq, Eq, Structural)]
pub enum StepError {
    /// The island holds a body that is not dynamic.
    NonDynamicBody,
    /// The island's state vector would not fit the machine.
    TooManyDofs,
    /// The Jacobian buffer would not fit the machine.
    BufferTooLarge,
}

/// Moreau-Jean time-stepping scheme: what one step's assembly leaves for
/// the solvers.
pub struct MoreauJeanSolver {
    /// Velocity constraints of the step and the sizes of their buffer.
    pub constraints: ConstraintSet,
    /// Bodies of the island whose internal constraints are projected at each sweep.
    pub internal_constraints: Vec<usize>,
    /// Length of the velocity-correction vector and of the external-velocity vector.
    pub system_ndofs: usize,
}

impl MoreauJeanSolver {
    /// The constraints that the scheme holds are well laid out in a buffer
    /// of the sizes that it holds.
    pub open spec fn wf(&self) -> bool {
        self.constraints.wf()
    }

    /// A scheme that has assembled nothing yet.
    pub fn new() -> (r: MoreauJeanSolver)
        ensures
            r.wf(),
            r.constraints.velocity@ == Seq::<Constraint>::empty(),
            r.constraints.sizes == (JacobianSizes { paired: 0, ground: 0 }),
            r.internal_constraints@ == Seq::<usize>::empty(),
            r.system_ndofs == 0,
    {
        MoreauJeanSolver {
            constraints: ConstraintSet {
                velocity: Vec::new(),
                sizes: JacobianSizes { paired: 0, ground: 0 },
            },
            internal_constraints: Vec::new(),
            system_ndofs: 0,
        }
    }

    /// Opens one step of the scheme with its assembly, the part of a step
    /// that is decided on integers: numbers the island's bodies, sizes the
    /// state vectors and the Jacobian buffer, and lays out the velocity
    /// constraints of the joints and manifolds. What an earlier step left
    /// is replaced. The phases that follow work within this layout.
    ///
    /// An island with a body that is not dynamic, or too large to count, is
    /// refused before anything changes; where the Jacobian buffer would be
    /// too large, the bodies are numbered and the scheme keeps what it had.
    pub fn step(
        &mut self,
        bodies: &mut BodySet,
        joints: &Slab<JointSummary>,
        manifolds: &[ManifoldSummary],
        island: &[usize],
    ) -> (r: Result<(), StepError>)
        ensures
            r == Err::<(), StepError>(StepError::NonDynamicBody) <==> !island_is_dynamic(
                old(bodies)@,
                island@,
            ),
            r == Err::<(), StepError>(StepError::TooManyDofs) <==> island_is_dynamic(
                old(bodies)@,
                island@,
            ) && island_ndofs(old(bodies)@, island@) > usize::MAX,
            r == Err::<(), StepError>(StepError::BufferTooLarge) <==> island_is_dynamic(
                old(bodies)@,
                island@,
            ) && island_ndofs(old(bodies)@, island@) <= usize::MAX && buffer_demand(
                old(bodies)@,
                stored_joints(joints),
                manifolds@,
            ) > usize::MAX,
            r.is_err() ==> *final(self) == *old(self),
            r == Err::<(), StepError>(StepError::NonDynamicBody) || r == Err::<(), StepError>(
                StepError::TooManyDofs,
            ) ==> final(bodies)@ == old(bodies)@,
            r.is_ok() || r == Err::<(), StepError>(StepError::BufferTooLarge) ==> numbered(
                old(bodies)@,
                final(bodies)@,
                island@,
                island@.len() as int,
            ),
            r.is_ok() ==> final(self).system_ndofs == island_ndofs(old(bodies)@, island@),
            r.is_ok() ==> final(self).internal_constraints@ == internal_handles(
                old(bodies)@,
                island@,
                island@.len(),
            ),
            r.is_ok() ==> final(self).constraints.sizes.paired == region_demand(
                old(bodies)@,
                stored_joints(joints),
                manifolds@,
                Region::Paired,
            ),
            r.is_ok() ==> final(self).constraints.sizes.ground == region_demand(
                old(bodies)@,
                stored_joints(joints),
                manifolds@,
                Region::Ground,
            ),
            r.is_ok() ==> final(self).constraints.velocity@ == layout(
                final(bodies)@,
                stored_joints(joints),
                manifolds@,
            ),
            r.is_ok() ==> final(self).wf(),
    {
        match check_island(bodies, island) {
            IslandStatus::NonDynamicBody => {
                return Err(StepError::NonDynamicBody);
            },
            IslandStatus::TooManyDofs => {
                return Err(StepError::TooManyDofs);
            },
            IslandStatus::Sound => {},
        }
        let numbering = number_island(bodies, island);
        proof {
            let before = old(bodies)@;
            let after = bodies@;
            let stored = stored_joints(joints);
            assert forall|h: usize|
                #![trigger resolves(before, h)]
                #![trigger solver_dofs(before, h)]
                resolves(before, h) == resolves(after, h) && solver_dofs(before, h) == solver_dofs(
                    after,
                    h,
                ) by {
                lemma_numbering_keeps_dofs(before, after, island@, island@.len() as int, h);
            }
            lemma_demand_depends_on_dofs(
                before,
                after,
                stored,
                manifolds@,
                stored.len(),
                manifolds@.len(),
                Region::Paired,
            );
            lemma_demand_depends_on_dofs(
                before,
                after,
                stored,
                manifolds@,
                stored.len(),
                manifolds@.len(),
                Region::Ground,
            );
        }
        match assemble_constraints(bodies, joints, manifolds) {
            Some(set) => {
                self.constraints = set;
                self.internal_constraints = numbering.internal_constraints;
                self.system_ndofs = numbering.ndofs;
                Ok(())
            },
            None => Err(StepError::BufferTooLarge),
        }
    }
}

} // verus!
