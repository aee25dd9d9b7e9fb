use slab::Slab;
use vstd::prelude::*;

verus! {

/// What the assembly reads of one joint constraint.
#[derive(Clone, Copy, Debug, PartialEq, Eq, Structural)]
pub struct JointSummary {
    /// Whether the joint takes part in this step.
    pub active: bool,
    /// Handle of the first anchor's body.
    pub body1: usize,
    /// Handle of the second anchor's body.
    pub body2: usize,
    /// Number of velocity constraints that the joint generates.
    pub num_velocity_constraints: usize,
}

/// What the assembly reads of one contact manifold.
#[derive(Clone, Copy, Debug, PartialEq, Eq, Structural)]
pub struct ManifoldSummary {
    /// Handle of the first collider's body.
    pub body1: usize,
    /// Handle of the second collider's body.
    pub body2: usize,
    /// Number of velocity constraints that the contact model generates for the manifold.
    pub num_velocity_constraints: usize,
}

/// `slab::Slab`, the arena that holds the joints under reusable keys. Its
/// inside is hidden from the verifier.
#[verifier::external_type_specification]
#[verifier::external_body]
#[verifier::reject_recursive_types(T)]
pub struct ExSlab<T>(Slab<T>);

/// The joints stored in a slab, in the order in which `Slab::iter` yields
/// them, which is the order of their keys.
pub uninterp spec fn stored_joints(joints: &Slab<JointSummary>) -> Seq<JointSummary>;

/// Calls `Slab::iter` and copies out each stored joint, dropping its key.
/// Trusted: the result is the slab's content in iteration order, which is
/// all that `stored_joints` stands for.
#[verifier::external_body]
pub(crate) fn joint_summaries(joints: &Slab<JointSummary>) -> (r: Vec<JointSummary>)
    ensures
        r@ == stored_joints(joints),
{
    joints.iter().map(|(_, joint)| *joint).collect()
}

} // verus!
