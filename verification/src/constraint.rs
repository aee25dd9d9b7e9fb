use crate::body::{resolves, solver_dofs, BodyDofs, BodySet};
use crate::jacobian::{
    buffer_demand, coupling_scalars, jacobian_sizes_of, joints_scalars,
    lemma_joints_scalars_monotone, lemma_manifolds_scalars_monotone, manifolds_scalars,
    region_demand, region_for, region_of, rows_scalars, JacobianSizes, Region,
};
use crate::joints::{joint_summaries, stored_joints, JointSummary, ManifoldSummary};
use slab::Slab;
use vstd::prelude::*;

verus! {

/// Whether a constraint's impulse is projected to be non-negative.
#[derive(Clone, Copy, Debug, PartialEq, Eq, Structural)]
pub enum Sign {
    /// An inequality: the impulse is kept non-negative.
    Unilateral,
    /// An equality: the impulse may have either sign.
    Bilateral,
}

/// What a constraint was generated for, by its position among the joints
/// or among the manifolds handed to the assembly.
#[derive(Clone, Copy, Debug, PartialEq, Eq, Structural)]
pub enum Source {
    Joint(usize),
    Manifold(usize),
}

/// A run of scalars of the Jacobian buffer.
#[derive(Clone, Copy, Debug, PartialEq, Eq, Structural)]
pub struct JacobianRange {
    pub offset: usize,
    pub len: usize,
}

/// Where one velocity constraint lives: its category, the blocks of the
/// state vector that it couples, and its two rows in the Jacobian buffer.
#[derive(Clone, Copy, Debug, PartialEq, Eq, Structural)]
pub struct Constraint {
    /// The joint or manifold that generated the constraint.
    pub source: Source,
    pub sign: Sign,
    pub region: Region,
    /// Companion id of the first body.
    pub assembly_id1: usize,
    /// Companion id of the second body.
    pub assembly_id2: usize,
    pub ndofs1: usize,
    pub ndofs2: usize,
    /// The Jacobian row.
    pub jacobian: JacobianRange,
    /// The mass-weighted Jacobian row, right behind the Jacobian row.
    pub weighted_jacobian: JacobianRange,
}

impl Constraint {
    /// First scalar of the constraint's rows.
    pub open spec fn start(&self) -> int {
        self.jacobian.offset as int
    }

    /// One past the last scalar of the constraint's rows.
    pub open spec fn end(&self) -> int {
        self.weighted_jacobian.offset + self.weighted_jacobian.len
    }

    /// The constraint's region is the one that the zero test gives it, and
    /// its two rows have an entry for each degree of freedom of its bodies.
    pub open spec fn shaped(&self) -> bool {
        &&& self.region == region_of(self.ndofs1 as nat, self.ndofs2 as nat)
        &&& self.jacobian.len == self.ndofs1 + self.ndofs2
        &&& self.weighted_jacobian.len == self.jacobian.len
    }

    /// The constraint's rows lie in its own region of a buffer whose paired
    /// region has `paired_len` scalars, below that region's cursor.
    pub open spec fn within(
        &self,
        paired_len: int,
        paired_cursor: int,
        ground_cursor: int,
    ) -> bool {
        &&& self.shaped()
        &&& self.jacobian.offset + self.jacobian.len == self.weighted_jacobian.offset
        &&& match self.region {
            Region::Paired => self.end() <= paired_cursor <= paired_len,
            Region::Ground => paired_len <= self.start() && self.end() <= ground_cursor,
        }
    }
}

/// Every constraint lies in its region below the cursors, and of two
/// constraints of one region the earlier ends before the later begins.
pub open spec fn packed(
    rows: Seq<Constraint>,
    paired_len: int,
    paired_cursor: int,
    ground_cursor: int,
) -> bool {
    &&& forall|i: int|
        0 <= i < rows.len() ==> (#[trigger] rows[i]).within(
            paired_len,
            paired_cursor,
            ground_cursor,
        )
    &&& forall|i: int, j: int|
        0 <= i < j < rows.len() && (#[trigger] rows[i]).region == (#[trigger] rows[j]).region
            ==> rows[i].end() <= rows[j].start()
}

/// Every constraint is in the region that the zero test gives it, none
/// leaves its region of a buffer of the given sizes, and no two share a
/// scalar.
pub open spec fn well_separated(rows: Seq<Constraint>, sizes: JacobianSizes) -> bool {
    packed(rows, sizes.paired as int, sizes.paired as int, sizes.paired + sizes.ground)
}

/// Scalars that the first `n` constraints of `rows` take in `region`.
pub open spec fn region_use(rows: Seq<Constraint>, n: nat, region: Region) -> nat
    decreases n,
{
    if n == 0 || n > rows.len() {
        0
    } else {
        let c = rows[n - 1];
        region_use(rows, (n - 1) as nat, region) + if c.region == region {
            (c.jacobian.len + c.weighted_jacobian.len) as nat
        } else {
            0
        }
    }
}

/// The constraints take exactly what lies between the start of each region
/// and its cursor.
pub open spec fn filled(
    rows: Seq<Constraint>,
    paired_len: int,
    paired_cursor: int,
    ground_cursor: int,
) -> bool {
    &&& region_use(rows, rows.len(), Region::Paired) == paired_cursor
    &&& paired_len + region_use(rows, rows.len(), Region::Ground) == ground_cursor
}

/// The rows of the constraints take every scalar of a buffer of the given
/// sizes: each region is as long as the rows in it.
pub open spec fn fills(rows: Seq<Constraint>, sizes: JacobianSizes) -> bool {
    filled(rows, sizes.paired as int, sizes.paired as int, sizes.paired + sizes.ground)
}

/// The constraint between the bodies `b1` and `b2` whose rows begin at `offset`.
pub open spec fn constraint_at(
    bodies: Seq<Option<BodyDofs>>,
    source: Source,
    sign: Sign,
    b1: usize,
    b2: usize,
    offset: nat,
) -> Constraint {
    let x = bodies[b1 as int].unwrap();
    let y = bodies[b2 as int].unwrap();
    let width = x.status_dependent_ndofs + y.status_dependent_ndofs;
    Constraint {
        source,
        sign,
        region: region_of(x.status_dependent_ndofs as nat, y.status_dependent_ndofs as nat),
        assembly_id1: x.companion_id,
        assembly_id2: y.companion_id,
        ndofs1: x.status_dependent_ndofs,
        ndofs2: y.status_dependent_ndofs,
        jacobian: JacobianRange { offset: offset as usize, len: width as usize },
        weighted_jacobian: JacobianRange { offset: (offset + width) as usize, len: width as usize },
    }
}

/// The `n` constraints between the bodies `b1` and `b2`, packed from
/// `start` on; none where a handle is stale.
pub open spec fn coupling_rows(
    bodies: Seq<Option<BodyDofs>>,
    source: Source,
    sign: Sign,
    b1: usize,
    b2: usize,
    n: usize,
    start: nat,
) -> Seq<Constraint> {
    if resolves(bodies, b1) && resolves(bodies, b2) {
        Seq::new(
            n as nat,
            |k: int|
                constraint_at(
                    bodies,
                    source,
                    sign,
                    b1,
                    b2,
                    start + rows_scalars(k as nat, solver_dofs(bodies, b1), solver_dofs(bodies, b2)),
                ),
        )
    } else {
        Seq::empty()
    }
}

/// First scalar of `region` in a buffer whose paired region has `paired_len` scalars.
pub open spec fn region_base(paired_len: nat, region: Region) -> nat {
    match region {
        Region::Paired => 0,
        Region::Ground => paired_len,
    }
}

/// Region of the constraints between the bodies `b1` and `b2`.
pub open spec fn coupling_region(bodies: Seq<Option<BodyDofs>>, b1: usize, b2: usize) -> Region {
    region_of(solver_dofs(bodies, b1), solver_dofs(bodies, b2))
}

/// Constraints of the first `n` joints: bilateral, each active joint's rows
/// right behind those that earlier joints put in the same region.
pub open spec fn joints_layout(
    bodies: Seq<Option<BodyDofs>>,
    joints: Seq<JointSummary>,
    n: nat,
    paired_len: nat,
) -> Seq<Constraint>
    decreases n,
{
    if n == 0 || n > joints.len() {
        Seq::empty()
    } else {
        let joint = joints[n - 1];
        let region = coupling_region(bodies, joint.body1, joint.body2);
        let before = joints_layout(bodies, joints, (n - 1) as nat, paired_len);
        if joint.active {
            before + coupling_rows(
                bodies,
                Source::Joint((n - 1) as usize),
                Sign::Bilateral,
                joint.body1,
                joint.body2,
                joint.num_velocity_constraints,
                region_base(paired_len, region) + joints_scalars(bodies, joints, (n - 1) as nat, region),
            )
        } else {
            before
        }
    }
}

/// Constraints of the first `n` manifolds: unilateral, each manifold's rows
/// right behind those that `taken` and the earlier manifolds have in the
/// same region; `taken` gives what the joints took of the paired and of the
/// ground region.
pub open spec fn manifolds_layout(
    bodies: Seq<Option<BodyDofs>>,
    manifolds: Seq<ManifoldSummary>,
    n: nat,
    paired_len: nat,
    taken: (nat, nat),
) -> Seq<Constraint>
    decreases n,
{
    if n == 0 || n > manifolds.len() {
        Seq::empty()
    } else {
        let m = manifolds[n - 1];
        let region = coupling_region(bodies, m.body1, m.body2);
        let joints_part = match region {
            Region::Paired => taken.0,
            Region::Ground => taken.1,
        };
        manifolds_layout(bodies, manifolds, (n - 1) as nat, paired_len, taken) + coupling_rows(
            bodies,
            Source::Manifold((n - 1) as usize),
            Sign::Unilateral,
            m.body1,
            m.body2,
            m.num_velocity_constraints,
            region_base(paired_len, region) + joints_part + manifolds_scalars(
                bodies,
                manifolds,
                (n - 1) as nat,
                region,
            ),
        )
    }
}

/// The velocity constraints of a step: those of the joints, then those of
/// the manifolds, each region packed from its first scalar on.
pub open spec fn layout(
    bodies: Seq<Option<BodyDofs>>,
    joints: Seq<JointSummary>,
    manifolds: Seq<ManifoldSummary>,
) -> Seq<Constraint> {
    let paired_len = region_demand(bodies, joints, manifolds, Region::Paired);
    joints_layout(bodies, joints, joints.len(), paired_len) + manifolds_layout(
        bodies,
        manifolds,
        manifolds.len(),
        paired_len,
        (
            joints_scalars(bodies, joints, joints.len(), Region::Paired),
            joints_scalars(bodies, joints, joints.len(), Region::Ground),
        ),
    )
}

/// The velocity constraints of one step and the sizes of the buffer that
/// holds their rows.
pub struct ConstraintSet {
    /// The constraints, in the order in which they were generated.
    pub velocity: Vec<Constraint>,
    /// Lengths of the two regions of the Jacobian buffer.
    pub sizes: JacobianSizes,
}

impl ConstraintSet {
    /// The buffer's length fits the machine, every constraint has rows of
    /// its own within its region, and the rows leave no scalar unused.
    pub open spec fn wf(&self) -> bool {
        &&& self.sizes.wf()
        &&& well_separated(self.velocity@, self.sizes)
        &&& fills(self.velocity@, self.sizes)
    }
}

/// One more constraint takes two rows more.
pub proof fn lemma_rows_scalars_step(k: nat, ndofs1: nat, ndofs2: nat)
    ensures
        rows_scalars(k + 1, ndofs1, ndofs2) == rows_scalars(k, ndofs1, ndofs2) + 2 * (ndofs1
            + ndofs2),
        rows_scalars(0, ndofs1, ndofs2) == 0,
{
    assert((k + 1) * 2 * (ndofs1 + ndofs2) == k * 2 * (ndofs1 + ndofs2) + 2 * (ndofs1 + ndofs2))
        by (nonlinear_arith);
    assert(0 * 2 * (ndofs1 + ndofs2) == 0) by (nonlinear_arith);
}

/// Fewer constraints take no more scalars.
pub proof fn lemma_rows_scalars_monotone(k: nat, n: nat, ndofs1: nat, ndofs2: nat)
    requires
        k <= n,
    ensures
        rows_scalars(k, ndofs1, ndofs2) <= rows_scalars(n, ndofs1, ndofs2),
{
    assert(k * 2 * (ndofs1 + ndofs2) <= n * 2 * (ndofs1 + ndofs2)) by (nonlinear_arith)
        requires
            k <= n,
    ;
}

/// In a well-separated set no two constraints share a scalar of the buffer.
pub proof fn lemma_rows_disjoint(rows: Seq<Constraint>, sizes: JacobianSizes, i: int, j: int)
    requires
        well_separated(rows, sizes),
        0 <= i < rows.len(),
        0 <= j < rows.len(),
        i != j,
    ensures
        rows[i].end() <= rows[j].start() || rows[j].end() <= rows[i].start(),
{
    let paired_len = sizes.paired as int;
    let total = sizes.paired + sizes.ground;
    assert(rows[i].within(paired_len, paired_len, total));
    assert(rows[j].within(paired_len, paired_len, total));
}

/// In a well-separated set every constraint stays in its own region: a
/// paired one, between two bodies with degrees of freedom, before the
/// ground region; a ground one, with a side that has none, within it.
pub proof fn lemma_rows_in_region(rows: Seq<Constraint>, sizes: JacobianSizes, i: int)
    requires
        well_separated(rows, sizes),
        0 <= i < rows.len(),
    ensures
        rows[i].region == Region::Ground <==> rows[i].ndofs1 == 0 || rows[i].ndofs2 == 0,
        rows[i].region == Region::Paired ==> 0 <= rows[i].start() <= rows[i].end() <= sizes.paired,
        rows[i].region == Region::Ground ==> sizes.paired <= rows[i].start() <= rows[i].end()
            <= sizes.paired + sizes.ground,
{
    assert(rows[i].within(sizes.paired as int, sizes.paired as int, sizes.paired + sizes.ground));
}

/// What the first constraints take does not depend on a constraint added behind them.
proof fn lemma_region_use_push(rows: Seq<Constraint>, c: Constraint, n: nat, region: Region)
    requires
        n <= rows.len(),
    ensures
        region_use(rows.push(c), n, region) == region_use(rows, n, region),
    decreases n,
{
    if n > 0 {
        lemma_region_use_push(rows, c, (n - 1) as nat, region);
        assert(rows.push(c)[n - 1] == rows[n - 1]);
    }
}

/// A constraint added to the rows takes its own length in its region and
/// nothing in the other.
proof fn lemma_filled_push(
    rows: Seq<Constraint>,
    c: Constraint,
    paired_len: int,
    paired_cursor: int,
    ground_cursor: int,
)
    requires
        filled(rows, paired_len, paired_cursor, ground_cursor),
    ensures
        c.region == Region::Paired ==> filled(
            rows.push(c),
            paired_len,
            paired_cursor + c.jacobian.len + c.weighted_jacobian.len,
            ground_cursor,
        ),
        c.region == Region::Ground ==> filled(
            rows.push(c),
            paired_len,
            paired_cursor,
            ground_cursor + c.jacobian.len + c.weighted_jacobian.len,
        ),
{
    lemma_region_use_push(rows, c, rows.len(), Region::Paired);
    lemma_region_use_push(rows, c, rows.len(), Region::Ground);
    assert(rows.push(c)[rows.len() as int] == c);
}

/// A constraint put at a region's cursor keeps the rows packed.
proof fn lemma_packed_push(
    rows: Seq<Constraint>,
    c: Constraint,
    paired_len: int,
    paired_cursor: int,
    ground_cursor: int,
)
    requires
        packed(rows, paired_len, paired_cursor, ground_cursor),
        paired_len <= ground_cursor,
        c.shaped(),
        c.jacobian.offset + c.jacobian.len == c.weighted_jacobian.offset,
        c.region == Region::Paired ==> c.start() == paired_cursor && c.end() <= paired_len,
        c.region == Region::Ground ==> c.start() == ground_cursor,
    ensures
        c.region == Region::Paired ==> packed(rows.push(c), paired_len, c.end(), ground_cursor),
        c.region == Region::Ground ==> packed(rows.push(c), paired_len, paired_cursor, c.end()),
{
    let next = rows.push(c);
    let p = if c.region == Region::Paired {
        c.end()
    } else {
        paired_cursor
    };
    let g = if c.region == Region::Ground {
        c.end()
    } else {
        ground_cursor
    };
    assert forall|i: int| 0 <= i < next.len() implies (#[trigger] next[i]).within(paired_len, p, g) by {
        if i < rows.len() {
            assert(rows[i].within(paired_len, paired_cursor, ground_cursor));
        }
    }
    assert forall|i: int, j: int|
        0 <= i < j < next.len() && (#[trigger] next[i]).region == (#[trigger] next[j]).region implies next[i].end()
        <= next[j].start() by {
        assert(rows[i].within(paired_len, paired_cursor, ground_cursor));
        if j < rows.len() {
            assert(rows[j].within(paired_len, paired_cursor, ground_cursor));
        }
    }
}

/// Appends the `n` constraints between `b1` and `b2` to `out`, their rows
/// taken at the cursor of their region, which moves behind them.
fn push_rows(
    bodies: &BodySet,
    out: &mut Vec<Constraint>,
    source: Source,
    sign: Sign,
    b1: usize,
    b2: usize,
    n: usize,
    paired: &mut usize,
    ground: &mut usize,
    Ghost(paired_len): Ghost<int>,
)
    requires
        *old(paired) + coupling_scalars(bodies@, b1, b2, n, Region::Paired) <= paired_len,
        *old(ground) + coupling_scalars(bodies@, b1, b2, n, Region::Ground) <= usize::MAX,
        paired_len <= *old(ground),
        packed(old(out)@, paired_len, *old(paired) as int, *old(ground) as int),
        filled(old(out)@, paired_len, *old(paired) as int, *old(ground) as int),
    ensures
        *final(paired) == *old(paired) + coupling_scalars(bodies@, b1, b2, n, Region::Paired),
        *final(ground) == *old(ground) + coupling_scalars(bodies@, b1, b2, n, Region::Ground),
        packed(final(out)@, paired_len, *final(paired) as int, *final(ground) as int),
        filled(final(out)@, paired_len, *final(paired) as int, *final(ground) as int),
        final(out)@ == old(out)@ + coupling_rows(
            bodies@,
            source,
            sign,
            b1,
            b2,
            n,
            match coupling_region(bodies@, b1, b2) {
                Region::Paired => *old(paired) as nat,
                Region::Ground => *old(ground) as nat,
            },
        ),
{
    let ghost first = out@;
    let ghost start: nat = match coupling_region(bodies@, b1, b2) {
        Region::Paired => *paired as nat,
        Region::Ground => *ground as nat,
    };
    let body1 = match bodies.body(b1) {
        Some(b) => b,
        None => {
            assert(out@ =~= first + coupling_rows(bodies@, source, sign, b1, b2, n, start));
            return ;
        },
    };
    let body2 = match bodies.body(b2) {
        Some(b) => b,
        None => {
            assert(out@ =~= first + coupling_rows(bodies@, source, sign, b1, b2, n, start));
            return ;
        },
    };
    let ndofs1: usize = body1.status_dependent_ndofs;
    let ndofs2: usize = body2.status_dependent_ndofs;
    let region = region_for(ndofs1, ndofs2);
    let ghost d1 = ndofs1 as nat;
    let ghost d2 = ndofs2 as nat;
    let mut k: usize = 0;
    proof {
        lemma_rows_scalars_step(0, d1, d2);
    }
    while k < n
        invariant
            k <= n,
            resolves(bodies@, b1),
            resolves(bodies@, b2),
            body1 == bodies@[b1 as int].unwrap(),
            body2 == bodies@[b2 as int].unwrap(),
            ndofs1 == body1.status_dependent_ndofs,
            ndofs2 == body2.status_dependent_ndofs,
            d1 == ndofs1,
            d2 == ndofs2,
            region == region_of(d1, d2),
            region == coupling_region(bodies@, b1, b2),
            first == old(out)@,
            start == match region {
                Region::Paired => *old(paired) as nat,
                Region::Ground => *old(ground) as nat,
            },
            *old(paired) + coupling_scalars(bodies@, b1, b2, n, Region::Paired) <= paired_len,
            *old(ground) + coupling_scalars(bodies@, b1, b2, n, Region::Ground) <= usize::MAX,
            paired_len <= *ground,
            region == Region::Paired ==> *paired == *old(paired) + rows_scalars(k as nat, d1, d2)
                && *ground == *old(ground),
            region == Region::Ground ==> *ground == *old(ground) + rows_scalars(k as nat, d1, d2)
                && *paired == *old(paired),
            packed(out@, paired_len, *paired as int, *ground as int),
            filled(out@, paired_len, *paired as int, *ground as int),
            out@ == first + Seq::new(
                k as nat,
                |i: int| constraint_at(bodies@, source, sign, b1, b2, start + rows_scalars(i as nat, d1, d2)),
            ),
        decreases n - k,
    {
        proof {
            lemma_rows_scalars_step(k as nat, d1, d2);
            lemma_rows_scalars_monotone((k + 1) as nat, n as nat, d1, d2);
        }
        let ghost rows = out@;
        let width: usize = ndofs1 + ndofs2;
        let offset: usize = match region {
            Region::Paired => *paired,
            Region::Ground => *ground,
        };
        let c = Constraint {
            source,
            sign,
            region,
            assembly_id1: body1.companion_id,
            assembly_id2: body2.companion_id,
            ndofs1,
            ndofs2,
            jacobian: JacobianRange { offset, len: width },
            weighted_jacobian: JacobianRange { offset: offset + width, len: width },
        };
        assert(c == constraint_at(bodies@, source, sign, b1, b2, start + rows_scalars(k as nat, d1, d2)));
        proof {
            lemma_packed_push(rows, c, paired_len, *paired as int, *ground as int);
            lemma_filled_push(rows, c, paired_len, *paired as int, *ground as int);
        }
        out.push(c);
        match region {
            Region::Paired => {
                *paired = offset + width + width;
            },
            Region::Ground => {
                *ground = offset + width + width;
            },
        }
        k = k + 1;
        assert(out@ =~= first + Seq::new(
            k as nat,
            |i: int| constraint_at(bodies@, source, sign, b1, b2, start + rows_scalars(i as nat, d1, d2)),
        ));
    }
    proof {
        assert(out@ =~= first + coupling_rows(bodies@, source, sign, b1, b2, n, start));
    }
}

/// Generates the velocity constraints of a step and sizes the Jacobian
/// buffer for them: the constraints of the active joints, bilateral, then
/// those of the manifolds, unilateral. Each constraint's rows go to the
/// ground region where one of its bodies has no degrees of freedom, else to
/// the paired region, and each region is filled from its start without
/// gaps. Couplings with a stale handle are dropped. Nothing where the
/// buffer's length would not fit the machine.
pub fn assemble_constraints_of(
    bodies: &BodySet,
    joints: &[JointSummary],
    manifolds: &[ManifoldSummary],
) -> (r: Option<ConstraintSet>)
    ensures
        buffer_demand(bodies@, joints@, manifolds@) > usize::MAX ==> r.is_none(),
        buffer_demand(bodies@, joints@, manifolds@) <= usize::MAX ==> r.is_some(),
        r.is_some() ==> r.unwrap().sizes.paired == region_demand(
            bodies@,
            joints@,
            manifolds@,
            Region::Paired,
        ),
        r.is_some() ==> r.unwrap().sizes.ground == region_demand(
            bodies@,
            joints@,
            manifolds@,
            Region::Ground,
        ),
        r.is_some() ==> r.unwrap().velocity@ == layout(bodies@, joints@, manifolds@),
        r.is_some() ==> r.unwrap().wf(),
{
    let sizes = match jacobian_sizes_of(bodies, joints, manifolds) {
        Some(s) => s,
        None => {
            return None;
        },
    };
    let ghost paired_len = sizes.paired as nat;
    let mut out: Vec<Constraint> = Vec::new();
    let mut paired: usize = 0;
    let mut ground: usize = sizes.paired;
    let mut i: usize = 0;
    while i < joints.len()
        invariant
            i <= joints@.len(),
            paired_len == sizes.paired,
            sizes.paired == region_demand(bodies@, joints@, manifolds@, Region::Paired),
            sizes.ground == region_demand(bodies@, joints@, manifolds@, Region::Ground),
            sizes.paired + sizes.ground <= usize::MAX,
            paired == joints_scalars(bodies@, joints@, i as nat, Region::Paired),
            ground == paired_len + joints_scalars(bodies@, joints@, i as nat, Region::Ground),
            packed(out@, paired_len as int, paired as int, ground as int),
            filled(out@, paired_len as int, paired as int, ground as int),
            out@ == joints_layout(bodies@, joints@, i as nat, paired_len),
        decreases joints@.len() - i,
    {
        let joint = joints[i];
        proof {
            lemma_joints_scalars_monotone(bodies@, joints@, (i + 1) as nat, joints@.len(), Region::Paired);
            lemma_joints_scalars_monotone(bodies@, joints@, (i + 1) as nat, joints@.len(), Region::Ground);
        }
        if joint.active {
            push_rows(
                bodies,
                &mut out,
                Source::Joint(i),
                Sign::Bilateral,
                joint.body1,
                joint.body2,
                joint.num_velocity_constraints,
                &mut paired,
                &mut ground,
                Ghost(paired_len as int),
            );
        }
        i = i + 1;
    }
    let ghost taken = (
        joints_scalars(bodies@, joints@, joints@.len(), Region::Paired),
        joints_scalars(bodies@, joints@, joints@.len(), Region::Ground),
    );
    let ghost joint_rows = out@;
    let mut k: usize = 0;
    assert(out@ =~= joint_rows + manifolds_layout(bodies@, manifolds@, 0, paired_len, taken));
    while k < manifolds.len()
        invariant
            k <= manifolds@.len(),
            paired_len == sizes.paired,
            sizes.paired == region_demand(bodies@, joints@, manifolds@, Region::Paired),
            sizes.ground == region_demand(bodies@, joints@, manifolds@, Region::Ground),
            sizes.paired + sizes.ground <= usize::MAX,
            taken == (
                joints_scalars(bodies@, joints@, joints@.len(), Region::Paired),
                joints_scalars(bodies@, joints@, joints@.len(), Region::Ground),
            ),
            joint_rows == joints_layout(bodies@, joints@, joints@.len(), paired_len),
            paired == taken.0 + manifolds_scalars(bodies@, manifolds@, k as nat, Region::Paired),
            ground == paired_len + taken.1 + manifolds_scalars(
                bodies@,
                manifolds@,
                k as nat,
                Region::Ground,
            ),
            packed(out@, paired_len as int, paired as int, ground as int),
            filled(out@, paired_len as int, paired as int, ground as int),
            out@ == joint_rows + manifolds_layout(bodies@, manifolds@, k as nat, paired_len, taken),
        decreases manifolds@.len() - k,
    {
        let m = manifolds[k];
        let ghost rows = out@;
        proof {
            lemma_manifolds_scalars_monotone(bodies@, manifolds@, (k + 1) as nat, manifolds@.len(), Region::Paired);
            lemma_manifolds_scalars_monotone(bodies@, manifolds@, (k + 1) as nat, manifolds@.len(), Region::Ground);
        }
        push_rows(
            bodies,
            &mut out,
            Source::Manifold(k),
            Sign::Unilateral,
            m.body1,
            m.body2,
            m.num_velocity_constraints,
            &mut paired,
            &mut ground,
            Ghost(paired_len as int),
        );
        k = k + 1;
        assert(out@ =~= joint_rows + manifolds_layout(bodies@, manifolds@, k as nat, paired_len, taken));
    }
    Some(ConstraintSet { velocity: out, sizes })
}

/// Generates the velocity constraints of a step for the joints stored in a
/// slab, visited in key order, and the given manifolds.
pub fn assemble_constraints(
    bodies: &BodySet,
    joints: &Slab<JointSummary>,
    manifolds: &[ManifoldSummary],
) -> (r: Option<ConstraintSet>)
    ensures
        buffer_demand(bodies@, stored_joints(joints), manifolds@) > usize::MAX ==> r.is_none(),
        buffer_demand(bodies@, stored_joints(joints), manifolds@) <= usize::MAX ==> r.is_some(),
        r.is_some() ==> r.unwrap().sizes.paired == region_demand(
            bodies@,
            stored_joints(joints),
            manifolds@,
            Region::Paired,
        ),
        r.is_some() ==> r.unwrap().sizes.ground == region_demand(
            bodies@,
            stored_joints(joints),
            manifolds@,
            Region::Ground,
        ),
        r.is_some() ==> r.unwrap().velocity@ == layout(bodies@, stored_joints(joints), manifolds@),
        r.is_some() ==> r.unwrap().wf(),
{
    let list = joint_summaries(joints);
    assemble_constraints_of(bodies, list.as_slice(), manifolds)
}

/// Among the first `n` constraints, those that `source` generated, in the
/// order in which they were generated.
pub open spec fn rows_from(rows: Seq<Constraint>, n: nat, source: Source) -> Seq<Constraint>
    decreases n,
{
    if n == 0 || n > rows.len() {
        Seq::empty()
    } else {
        let rest = rows_from(rows, (n - 1) as nat, source);
        if rows[n - 1].source == source {
            rest.push(rows[n - 1])
        } else {
            rest
        }
    }
}

impl ConstraintSet {
    /// The constraints that one joint or manifold generated, in order.
    pub fn generated_by(&self, source: Source) -> (r: Vec<Constraint>)
        ensures
            r@ == rows_from(self.velocity@, self.velocity@.len(), source),
    {
        let mut out: Vec<Constraint> = Vec::new();
        let mut i: usize = 0;
        while i < self.velocity.len()
            invariant
                i <= self.velocity@.len(),
                out@ == rows_from(self.velocity@, i as nat, source),
            decreases self.velocity@.len() - i,
        {
            let c = self.velocity[i];
            if c.source == source {
                out.push(c);
            }
            i = i + 1;
        }
        out
    }
}

} // verus!
