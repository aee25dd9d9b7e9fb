use crate::body::{resolves, solver_dofs, BodyDofs, BodySet};
use crate::joints::{joint_summaries, stored_joints, JointSummary, ManifoldSummary};
use slab::Slab;
use vstd::prelude::*;

verus! {

/// The two regions of the Jacobian buffer.
#[derive(Clone, Copy, Debug, PartialEq, Eq, Structural)]
pub enum Region {
    /// Rows of constraints between two bodies that both have degrees of freedom.
    Paired,
    /// Rows of constraints with a side that has none.
    Ground,
}

/// Region that holds the rows of a constraint between bodies with `ndofs1`
/// and `ndofs2` degrees of freedom.
pub open spec fn region_of(ndofs1: nat, ndofs2: nat) -> Region {
    if ndofs1 == 0 || ndofs2 == 0 {
        Region::Ground
    } else {
        Region::Paired
    }
}

/// Scalars taken by `n` constraints between bodies with `ndofs1` and
/// `ndofs2` degrees of freedom: a Jacobian row and a mass-weighted one each.
pub open spec fn rows_scalars(n: nat, ndofs1: nat, ndofs2: nat) -> nat {
    n * 2 * (ndofs1 + ndofs2)
}

/// Scalars that `n` constraints between the bodies `b1` and `b2` need in
/// `region`. Nothing where a handle is stale or the rows go to the other region.
pub open spec fn coupling_scalars(
    bodies: Seq<Option<BodyDofs>>,
    b1: usize,
    b2: usize,
    n: usize,
    region: Region,
) -> nat {
    if resolves(bodies, b1) && resolves(bodies, b2) && region_of(
        solver_dofs(bodies, b1),
        solver_dofs(bodies, b2),
    ) == region {
        rows_scalars(n as nat, solver_dofs(bodies, b1), solver_dofs(bodies, b2))
    } else {
        0
    }
}

/// Scalars that one joint needs in `region`; an inactive joint needs none.
pub open spec fn joint_scalars(
    bodies: Seq<Option<BodyDofs>>,
    joint: JointSummary,
    region: Region,
) -> nat {
    if joint.active {
        coupling_scalars(bodies, joint.body1, joint.body2, joint.num_velocity_constraints, region)
    } else {
        0
    }
}

/// Scalars that the first `n` joints need in `region`.
pub open spec fn joints_scalars(
    bodies: Seq<Option<BodyDofs>>,
    joints: Seq<JointSummary>,
    n: nat,
    region: Region,
) -> nat
    decreases n,
{
    if n == 0 || n > joints.len() {
        0
    } else {
        joints_scalars(bodies, joints, (n - 1) as nat, region) + joint_scalars(
            bodies,
            joints[n - 1],
            region,
        )
    }
}

/// Scalars that the first `n` manifolds need in `region`.
pub open spec fn manifolds_scalars(
    bodies: Seq<Option<BodyDofs>>,
    manifolds: Seq<ManifoldSummary>,
    n: nat,
    region: Region,
) -> nat
    decreases n,
{
    if n == 0 || n > manifolds.len() {
        0
    } else {
        manifolds_scalars(bodies, manifolds, (n - 1) as nat, region) + coupling_scalars(
            bodies,
            manifolds[n - 1].body1,
            manifolds[n - 1].body2,
            manifolds[n - 1].num_velocity_constraints,
            region,
        )
    }
}

/// Scalars that all joints and manifolds need in `region`.
pub open spec fn region_demand(
    bodies: Seq<Option<BodyDofs>>,
    joints: Seq<JointSummary>,
    manifolds: Seq<ManifoldSummary>,
    region: Region,
) -> nat {
    joints_scalars(bodies, joints, joints.len(), region) + manifolds_scalars(
        bodies,
        manifolds,
        manifolds.len(),
        region,
    )
}

/// Length of the Jacobian buffer that holds the rows of all joints and manifolds.
pub open spec fn buffer_demand(
    bodies: Seq<Option<BodyDofs>>,
    joints: Seq<JointSummary>,
    manifolds: Seq<ManifoldSummary>,
) -> nat {
    region_demand(bodies, joints, manifolds, Region::Paired) + region_demand(
        bodies,
        joints,
        manifolds,
        Region::Ground,
    )
}

/// Lengths of the two regions of a Jacobian buffer. The paired region is the
/// buffer's prefix, the ground region its suffix.
#[derive(Clone, Copy, Debug, PartialEq, Eq, Structural)]
pub struct JacobianSizes {
    pub paired: usize,
    pub ground: usize,
}

impl JacobianSizes {
    /// The buffer's length fits the machine.
    pub open spec fn wf(&self) -> bool {
        self.paired + self.ground <= usize::MAX
    }

    /// Length of `region`.
    pub open spec fn of(&self, region: Region) -> nat {
        match region {
            Region::Paired => self.paired as nat,
            Region::Ground => self.ground as nat,
        }
    }

    /// Length of the whole buffer.
    pub fn total(&self) -> (n: usize)
        requires
            self.wf(),
        ensures
            n == self.paired + self.ground,
    {
        self.paired + self.ground
    }
}

/// The region for the given degrees of freedom, by the zero test.
pub fn region_for(ndofs1: usize, ndofs2: usize) -> (r: Region)
    ensures
        r == region_of(ndofs1 as nat, ndofs2 as nat),
{
    if ndofs1 == 0 || ndofs2 == 0 {
        Region::Ground
    } else {
        Region::Paired
    }
}

/// `rows_scalars` as a machine integer, or nothing where it does not fit.
pub fn checked_rows_scalars(n: usize, ndofs1: usize, ndofs2: usize) -> (r: Option<usize>)
    ensures
        rows_scalars(n as nat, ndofs1 as nat, ndofs2 as nat) <= usize::MAX ==> r == Some(
            rows_scalars(n as nat, ndofs1 as nat, ndofs2 as nat) as usize,
        ),
        rows_scalars(n as nat, ndofs1 as nat, ndofs2 as nat) > usize::MAX ==> r.is_none(),
{
    if n == 0 {
        return Some(0);
    }
    assert(n * 2 * (ndofs1 + ndofs2) == n * (2 * (ndofs1 + ndofs2))) by (nonlinear_arith);
    assert(n * (2 * (ndofs1 + ndofs2)) >= 2 * (ndofs1 + ndofs2)) by (nonlinear_arith)
        requires
            n >= 1,
    ;
    match ndofs1.checked_add(ndofs2) {
        None => None,
        Some(width) => match width.checked_mul(2) {
            None => None,
            Some(pair) => {
                assert(pair == 2 * (ndofs1 + ndofs2));
                n.checked_mul(pair)
            },
        },
    }
}

/// A prefix of the joints needs no more than a longer one.
pub proof fn lemma_joints_scalars_monotone(
    bodies: Seq<Option<BodyDofs>>,
    joints: Seq<JointSummary>,
    m: nat,
    n: nat,
    region: Region,
)
    requires
        m <= n <= joints.len(),
    ensures
        joints_scalars(bodies, joints, m, region) <= joints_scalars(bodies, joints, n, region),
    decreases n,
{
    if m < n {
        lemma_joints_scalars_monotone(bodies, joints, m, (n - 1) as nat, region);
    }
}

/// A prefix of the manifolds needs no more than a longer one.
pub proof fn lemma_manifolds_scalars_monotone(
    bodies: Seq<Option<BodyDofs>>,
    manifolds: Seq<ManifoldSummary>,
    m: nat,
    n: nat,
    region: Region,
)
    requires
        m <= n <= manifolds.len(),
    ensures
        manifolds_scalars(bodies, manifolds, m, region) <= manifolds_scalars(
            bodies,
            manifolds,
            n,
            region,
        ),
    decreases n,
{
    if m < n {
        lemma_manifolds_scalars_monotone(bodies, manifolds, m, (n - 1) as nat, region);
    }
}

/// What joints and manifolds need depends on the bodies only through which
/// handles resolve and through the bodies' degrees of freedom.
pub proof fn lemma_demand_depends_on_dofs(
    a: Seq<Option<BodyDofs>>,
    b: Seq<Option<BodyDofs>>,
    joints: Seq<JointSummary>,
    manifolds: Seq<ManifoldSummary>,
    n: nat,
    m: nat,
    region: Region,
)
    requires
        forall|h: usize|
            #![trigger resolves(a, h)]
            #![trigger solver_dofs(a, h)]
            resolves(a, h) == resolves(b, h) && solver_dofs(a, h) == solver_dofs(b, h),
    ensures
        joints_scalars(a, joints, n, region) == joints_scalars(b, joints, n, region),
        manifolds_scalars(a, manifolds, m, region) == manifolds_scalars(b, manifolds, m, region),
    decreases n + m,
{
    if n > 0 {
        lemma_demand_depends_on_dofs(a, b, joints, manifolds, (n - 1) as nat, m, region);
    } else if m > 0 {
        lemma_demand_depends_on_dofs(a, b, joints, manifolds, n, (m - 1) as nat, region);
    }
}

/// Adds to `sizes` what `n` constraints between `b1` and `b2` need, in the
/// region that the zero test gives them. Nothing where a region's length
/// would leave the machine's range.
fn add_coupling(
    bodies: &BodySet,
    sizes: JacobianSizes,
    b1: usize,
    b2: usize,
    n: usize,
) -> (r: Option<JacobianSizes>)
    ensures
        match r {
            Some(s) => {
                &&& s.paired == sizes.paired + coupling_scalars(bodies@, b1, b2, n, Region::Paired)
                &&& s.ground == sizes.ground + coupling_scalars(bodies@, b1, b2, n, Region::Ground)
            },
            None => {
                ||| sizes.paired + coupling_scalars(bodies@, b1, b2, n, Region::Paired) > usize::MAX
                ||| sizes.ground + coupling_scalars(bodies@, b1, b2, n, Region::Ground) > usize::MAX
            },
        },
{
    let body1 = match bodies.body(b1) {
        Some(b) => b,
        None => {
            return Some(sizes);
        },
    };
    let body2 = match bodies.body(b2) {
        Some(b) => b,
        None => {
            return Some(sizes);
        },
    };
    let ndofs1: usize = body1.status_dependent_ndofs;
    let ndofs2: usize = body2.status_dependent_ndofs;
    let scalars: usize = match checked_rows_scalars(n, ndofs1, ndofs2) {
        Some(s) => s,
        None => {
            return None;
        },
    };
    match region_for(ndofs1, ndofs2) {
        Region::Ground => match sizes.ground.checked_add(scalars) {
            Some(ground) => Some(JacobianSizes { paired: sizes.paired, ground }),
            None => None,
        },
        Region::Paired => match sizes.paired.checked_add(scalars) {
            Some(paired) => Some(JacobianSizes { paired, ground: sizes.ground }),
            None => None,
        },
    }
}

/// Sizes the two regions of the Jacobian buffer for the given joints and
/// manifolds: each active joint and each manifold whose two bodies resolve
/// takes `2 * (ndofs1 + ndofs2)` scalars for each of its velocity
/// constraints, in the ground region where a side has no degrees of
/// freedom, else in the paired one. Nothing where the buffer's length would
/// not fit the machine.
pub fn jacobian_sizes_of(
    bodies: &BodySet,
    joints: &[JointSummary],
    manifolds: &[ManifoldSummary],
) -> (r: Option<JacobianSizes>)
    ensures
        buffer_demand(bodies@, joints@, manifolds@) <= usize::MAX ==> r == Some(
            (JacobianSizes {
                paired: region_demand(bodies@, joints@, manifolds@, Region::Paired) as usize,
                ground: region_demand(bodies@, joints@, manifolds@, Region::Ground) as usize,
            }),
        ),
        buffer_demand(bodies@, joints@, manifolds@) > usize::MAX ==> r.is_none(),
{
    let mut sizes = JacobianSizes { paired: 0, ground: 0 };
    let mut i: usize = 0;
    while i < joints.len()
        invariant
            i <= joints@.len(),
            sizes.paired == joints_scalars(bodies@, joints@, i as nat, Region::Paired),
            sizes.ground == joints_scalars(bodies@, joints@, i as nat, Region::Ground),
        decreases joints@.len() - i,
    {
        let joint = joints[i];
        proof {
            lemma_joints_scalars_monotone(bodies@, joints@, (i + 1) as nat, joints@.len(), Region::Paired);
            lemma_joints_scalars_monotone(bodies@, joints@, (i + 1) as nat, joints@.len(), Region::Ground);
        }
        if joint.active {
            match add_coupling(bodies, sizes, joint.body1, joint.body2, joint.num_velocity_constraints) {
                Some(s) => {
                    sizes = s;
                },
                None => {
                    return None;
                },
            }
        }
        i = i + 1;
    }
    let mut k: usize = 0;
    while k < manifolds.len()
        invariant
            k <= manifolds@.len(),
            sizes.paired == joints_scalars(bodies@, joints@, joints@.len(), Region::Paired)
                + manifolds_scalars(bodies@, manifolds@, k as nat, Region::Paired),
            sizes.ground == joints_scalars(bodies@, joints@, joints@.len(), Region::Ground)
                + manifolds_scalars(bodies@, manifolds@, k as nat, Region::Ground),
        decreases manifolds@.len() - k,
    {
        let m = manifolds[k];
        proof {
            lemma_manifolds_scalars_monotone(bodies@, manifolds@, (k + 1) as nat, manifolds@.len(), Region::Paired);
            lemma_manifolds_scalars_monotone(bodies@, manifolds@, (k + 1) as nat, manifolds@.len(), Region::Ground);
        }
        match add_coupling(bodies, sizes, m.body1, m.body2, m.num_velocity_constraints) {
            Some(s) => {
                sizes = s;
            },
            None => {
                return None;
            },
        }
        k = k + 1;
    }
    match sizes.paired.checked_add(sizes.ground) {
        Some(_) => Some(sizes),
        None => None,
    }
}

/// Sizes the Jacobian buffer for the joints stored in a slab, visited in
/// key order, and the given manifolds.
pub fn jacobian_sizes(
    bodies: &BodySet,
    joints: &Slab<JointSummary>,
    manifolds: &[ManifoldSummary],
) -> (r: Option<JacobianSizes>)
    ensures
        buffer_demand(bodies@, stored_joints(joints), manifolds@) <= usize::MAX ==> r == Some(
            (JacobianSizes {
                paired: region_demand(bodies@, stored_joints(joints), manifolds@, Region::Paired)
                    as usize,
                ground: region_demand(bodies@, stored_joints(joints), manifolds@, Region::Ground)
                    as usize,
            }),
        ),
        buffer_demand(bodies@, stored_joints(joints), manifolds@) > usize::MAX ==> r.is_none(),
{
    let list = joint_summaries(joints);
    jacobian_sizes_of(bodies, list.as_slice(), manifolds)
}

} // verus!
