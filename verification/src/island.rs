use crate::body::{resolves, solver_dofs, with_companion_id, BodyDofs, BodySet};
use vstd::prelude::*;

verus! {

/// Degrees of freedom of the first `n` entries of `island`, stale handles
/// counting for nothing.
pub open spec fn dofs_before(bodies: Seq<Option<BodyDofs>>, island: Seq<usize>, n: nat) -> nat
    decreases n,
{
    if n == 0 || n > island.len() {
        0
    } else {
        dofs_before(bodies, island, (n - 1) as nat) + solver_dofs(bodies, island[n - 1])
    }
}

/// Degrees of freedom of the whole island.
pub open spec fn island_ndofs(bodies: Seq<Option<BodyDofs>>, island: Seq<usize>) -> nat {
    dofs_before(bodies, island, island.len())
}

/// Every body of the island that can be resolved is dynamic.
pub open spec fn island_is_dynamic(bodies: Seq<Option<BodyDofs>>, island: Seq<usize>) -> bool {
    forall|i: int|
        0 <= i < island.len() && resolves(bodies, #[trigger] island[i]) ==> solver_dofs(
            bodies,
            island[i],
        ) != 0
}

/// The handle `h` does not occur in `island` at the positions `lo..hi`.
pub open spec fn absent(island: Seq<usize>, h: usize, lo: int, hi: int) -> bool {
    forall|j: int| lo <= j < hi && 0 <= j < island.len() ==> #[trigger] island[j] != h
}

/// Among the first `n` entries of `island`, those that name a body with
/// active internal constraints, in island order.
pub open spec fn internal_handles(
    bodies: Seq<Option<BodyDofs>>,
    island: Seq<usize>,
    n: nat,
) -> Seq<usize>
    decreases n,
{
    if n == 0 || n > island.len() {
        Seq::empty()
    } else {
        let rest = internal_handles(bodies, island, (n - 1) as nat);
        let h = island[n - 1];
        if resolves(bodies, h) && bodies[h as int].unwrap().active_internal_constraints {
            rest.push(h)
        } else {
            rest
        }
    }
}

/// `after` is `before` once the first `n` entries of `island` were numbered:
/// only companion ids changed, only those of bodies named there, and each
/// such body starts where the entries before its last occurrence end.
pub open spec fn numbered(
    before: Seq<Option<BodyDofs>>,
    after: Seq<Option<BodyDofs>>,
    island: Seq<usize>,
    n: int,
) -> bool {
    &&& after.len() == before.len()
    &&& forall|h: int|
        0 <= h < before.len() && (#[trigger] before[h]).is_none() ==> after[h].is_none()
    &&& forall|h: int|
        0 <= h < before.len() && (#[trigger] before[h]).is_some() ==> after[h] == Some(
            with_companion_id(before[h].unwrap(), after[h].unwrap().companion_id),
        )
    &&& forall|h: int|
        0 <= h < before.len() && absent(island, h as usize, 0, n) ==> #[trigger] after[h]
            == before[h]
    &&& forall|i: int|
        0 <= i < n && i < island.len() && resolves(before, #[trigger] island[i]) && absent(
            island,
            island[i],
            i + 1,
            n,
        ) ==> after[island[i] as int].unwrap().companion_id == dofs_before(
            before,
            island,
            i as nat,
        )
}

/// Result of numbering an island.
pub struct IslandNumbering {
    /// Length of the island's combined state vector.
    pub ndofs: usize,
    /// Bodies of the island that need their internal constraints projected.
    pub internal_constraints: Vec<usize>,
}

/// A prefix of an island has no more degrees of freedom than a longer one.
pub proof fn lemma_dofs_before_monotone(
    bodies: Seq<Option<BodyDofs>>,
    island: Seq<usize>,
    m: nat,
    n: nat,
)
    requires
        m <= n <= island.len(),
    ensures
        dofs_before(bodies, island, m) <= dofs_before(bodies, island, n),
    decreases n,
{
    if m < n {
        lemma_dofs_before_monotone(bodies, island, m, (n - 1) as nat);
    }
}

/// `numbered`, kept folded while the island is walked.
#[verifier::opaque]
spec fn numbered_so_far(
    before: Seq<Option<BodyDofs>>,
    after: Seq<Option<BodyDofs>>,
    island: Seq<usize>,
    n: int,
) -> bool {
    numbered(before, after, island, n)
}

/// Before any entry is numbered nothing has changed.
proof fn lemma_numbered_start(before: Seq<Option<BodyDofs>>, island: Seq<usize>)
    ensures
        numbered_so_far(before, before, island, 0),
{
    reveal(numbered_so_far);
}

/// Once every entry is numbered the island is.
proof fn lemma_numbered_end(
    before: Seq<Option<BodyDofs>>,
    after: Seq<Option<BodyDofs>>,
    island: Seq<usize>,
)
    requires
        numbered_so_far(before, after, island, island.len() as int),
    ensures
        numbered(before, after, island, island.len() as int),
{
    reveal(numbered_so_far);
}

/// While the island is walked, a handle names the body that it named at
/// first, but for the body's companion id.
proof fn lemma_numbered_reads(
    before: Seq<Option<BodyDofs>>,
    mid: Seq<Option<BodyDofs>>,
    island: Seq<usize>,
    n: int,
    h: usize,
)
    requires
        numbered_so_far(before, mid, island, n),
    ensures
        mid.len() == before.len(),
        resolves(mid, h) == resolves(before, h),
        resolves(before, h) ==> mid[h as int] == Some(
            with_companion_id(before[h as int].unwrap(), mid[h as int].unwrap().companion_id),
        ),
{
    reveal(numbered_so_far);
    if h < before.len() {
        if before[h as int].is_some() {
            assert(mid[h as int] == Some(
                with_companion_id(before[h as int].unwrap(), mid[h as int].unwrap().companion_id),
            ));
        } else {
            assert(mid[h as int].is_none());
        }
    }
}

/// Numbering one more entry of the island keeps the numbering sound.
proof fn lemma_numbered_step(
    before: Seq<Option<BodyDofs>>,
    mid: Seq<Option<BodyDofs>>,
    after: Seq<Option<BodyDofs>>,
    island: Seq<usize>,
    n: int,
    id: usize,
)
    requires
        0 <= n < island.len(),
        numbered_so_far(before, mid, island, n),
        id == dofs_before(before, island, n as nat),
        resolves(mid, island[n]) ==> after == mid.update(
            island[n] as int,
            Some(with_companion_id(mid[island[n] as int].unwrap(), id)),
        ),
        !resolves(mid, island[n]) ==> after == mid,
    ensures
        numbered_so_far(before, after, island, n + 1),
{
    reveal(numbered_so_far);
    assert forall|k: int|
        0 <= k < before.len() && absent(island, k as usize, 0, n + 1) implies #[trigger] after[k]
        == before[k] by {
        assert(island[n] != k as usize);
        assert(absent(island, k as usize, 0, n));
    }
    assert forall|j: int|
        0 <= j < n + 1 && j < island.len() && resolves(before, #[trigger] island[j]) && absent(
            island,
            island[j],
            j + 1,
            n + 1,
        ) implies after[island[j] as int].unwrap().companion_id == dofs_before(
        before,
        island,
        j as nat,
    ) by {
        if j < n {
            assert(island[n] != island[j]);
            assert(absent(island, island[j], j + 1, n));
        }
    }
}

/// Gives each body of `island` its companion id: the running sum of the
/// degrees of freedom of the entries before it. Returns that sum over the
/// whole island, and the bodies with active internal constraints. Stale
/// handles are passed over.
pub fn number_island(bodies: &mut BodySet, island: &[usize]) -> (r: IslandNumbering)
    requires
        island_is_dynamic(old(bodies)@, island@),
        island_ndofs(old(bodies)@, island@) <= usize::MAX,
    ensures
        r.ndofs == island_ndofs(old(bodies)@, island@),
        r.internal_constraints@ == internal_handles(old(bodies)@, island@, island@.len()),
        numbered(old(bodies)@, final(bodies)@, island@, island@.len() as int),
{
    let ghost before = bodies@;
    let mut internal: Vec<usize> = Vec::new();
    let mut total: usize = 0;
    let mut i: usize = 0;
    proof {
        lemma_numbered_start(before, island@);
    }
    while i < island.len()
        invariant
            i <= island@.len(),
            before == old(bodies)@,
            island_ndofs(before, island@) <= usize::MAX,
            total == dofs_before(before, island@, i as nat),
            internal@ == internal_handles(before, island@, i as nat),
            numbered_so_far(before, bodies@, island@, i as int),
        decreases island@.len() - i,
    {
        let h: usize = island[i];
        let ghost mid = bodies@;
        let ghost total_before = total;
        proof {
            lemma_dofs_before_monotone(before, island@, (i + 1) as nat, island@.len());
            lemma_numbered_reads(before, mid, island@, i as int, h);
        }
        match bodies.body(h) {
            Some(b) => {
                bodies.set_companion_id(h, total);
                total = total + b.status_dependent_ndofs;
                if b.active_internal_constraints {
                    internal.push(h);
                }
            },
            None => {},
        }
        proof {
            lemma_numbered_step(before, mid, bodies@, island@, i as int, total_before);
        }
        i = i + 1;
    }
    proof {
        lemma_numbered_end(before, bodies@, island@);
    }
    IslandNumbering { ndofs: total, internal_constraints: internal }
}

/// What a look at an island finds before it is numbered.
#[derive(Clone, Copy, Debug, PartialEq, Eq, Structural)]
pub enum IslandStatus {
    /// Every body is dynamic and the state vector's length fits the machine.
    Sound,
    /// The island holds a body without degrees of freedom to solve for.
    NonDynamicBody,
    /// The state vector's length would not fit the machine.
    TooManyDofs,
}

/// Tells whether `island` can be numbered: whether each of its bodies that
/// resolves is dynamic, and whether its degrees of freedom can be counted.
pub fn check_island(bodies: &BodySet, island: &[usize]) -> (r: IslandStatus)
    ensures
        r == IslandStatus::Sound <==> island_is_dynamic(bodies@, island@) && island_ndofs(
            bodies@,
            island@,
        ) <= usize::MAX,
        r == IslandStatus::NonDynamicBody <==> !island_is_dynamic(bodies@, island@),
        r == IslandStatus::TooManyDofs <==> island_is_dynamic(bodies@, island@) && island_ndofs(
            bodies@,
            island@,
        ) > usize::MAX,
{
    let mut total: usize = 0;
    let mut overflow = false;
    let mut i: usize = 0;
    while i < island.len()
        invariant
            i <= island@.len(),
            !overflow ==> total == dofs_before(bodies@, island@, i as nat),
            overflow ==> island_ndofs(bodies@, island@) > usize::MAX,
            forall|j: int|
                0 <= j < i && resolves(bodies@, #[trigger] island@[j]) ==> solver_dofs(
                    bodies@,
                    island@[j],
                ) != 0,
        decreases island@.len() - i,
    {
        proof {
            lemma_dofs_before_monotone(bodies@, island@, (i + 1) as nat, island@.len());
        }
        match bodies.body(island[i]) {
            Some(b) => {
                if b.status_dependent_ndofs == 0 {
                    assert(resolves(bodies@, island@[i as int]));
                    return IslandStatus::NonDynamicBody;
                }
                if !overflow {
                    match total.checked_add(b.status_dependent_ndofs) {
                        Some(t) => {
                            total = t;
                        },
                        None => {
                            overflow = true;
                        },
                    }
                }
            },
            None => {},
        }
        i = i + 1;
    }
    if overflow {
        IslandStatus::TooManyDofs
    } else {
        IslandStatus::Sound
    }
}

/// After numbering, the block of a body ends where the island's entries up
/// to its last occurrence end, and so within the island's state vector.
pub proof fn lemma_block_in_vector(
    before: Seq<Option<BodyDofs>>,
    after: Seq<Option<BodyDofs>>,
    island: Seq<usize>,
    i: int,
)
    requires
        numbered(before, after, island, island.len() as int),
        0 <= i < island.len(),
        resolves(before, island[i]),
        absent(island, island[i], i + 1, island.len() as int),
    ensures
        after[island[i] as int].unwrap().companion_id + solver_dofs(after, island[i])
            == dofs_before(before, island, (i + 1) as nat),
        after[island[i] as int].unwrap().companion_id + solver_dofs(after, island[i])
            <= island_ndofs(before, island),
{
    lemma_dofs_before_monotone(before, island, (i + 1) as nat, island.len());
    assert(before[island[i] as int].is_some());
}

/// After numbering, the blocks of two bodies of the island do not overlap:
/// the one whose last occurrence comes first ends before the other begins.
pub proof fn lemma_blocks_disjoint(
    before: Seq<Option<BodyDofs>>,
    after: Seq<Option<BodyDofs>>,
    island: Seq<usize>,
    i: int,
    j: int,
)
    requires
        numbered(before, after, island, island.len() as int),
        0 <= i < j < island.len(),
        resolves(before, island[i]),
        resolves(before, island[j]),
        absent(island, island[i], i + 1, island.len() as int),
        absent(island, island[j], j + 1, island.len() as int),
    ensures
        after[island[i] as int].unwrap().companion_id + solver_dofs(after, island[i])
            <= after[island[j] as int].unwrap().companion_id,
{
    lemma_block_in_vector(before, after, island, i);
    lemma_dofs_before_monotone(before, island, (i + 1) as nat, j as nat);
}

/// Numbering changes no body's degrees of freedom, and no handle starts or
/// stops resolving.
pub proof fn lemma_numbering_keeps_dofs(
    before: Seq<Option<BodyDofs>>,
    after: Seq<Option<BodyDofs>>,
    island: Seq<usize>,
    n: int,
    h: usize,
)
    requires
        numbered(before, after, island, n),
    ensures
        resolves(after, h) == resolves(before, h),
        solver_dofs(after, h) == solver_dofs(before, h),
{
    if h < before.len() {
        if before[h as int].is_some() {
            assert(after[h as int] == Some(
                with_companion_id(before[h as int].unwrap(), after[h as int].unwrap().companion_id),
            ));
        } else {
            assert(after[h as int].is_none());
        }
    }
}

/// A handle that occurs among the first `n` entries of the island has a
/// last occurrence there.
pub proof fn lemma_last_occurrence(island: Seq<usize>, h: usize, n: int) -> (i: int)
    requires
        0 <= n <= island.len(),
        exists|j: int| 0 <= j < n && island[j] == h,
    ensures
        0 <= i < n,
        island[i] == h,
        absent(island, h, i + 1, n),
    decreases n,
{
    if island[n - 1] == h {
        n - 1
    } else {
        let j = choose|j: int| 0 <= j < n && island[j] == h;
        assert(0 <= j < n - 1 && island[j] == h);
        lemma_last_occurrence(island, h, n - 1)
    }
}

/// After numbering, the block of every body of the island lies within the
/// island's state vector.
pub proof fn lemma_island_body_block(
    before: Seq<Option<BodyDofs>>,
    after: Seq<Option<BodyDofs>>,
    island: Seq<usize>,
    h: usize,
)
    requires
        numbered(before, after, island, island.len() as int),
        island.contains(h),
        resolves(before, h),
    ensures
        after[h as int].unwrap().companion_id + solver_dofs(after, h) <= island_ndofs(
            before,
            island,
        ),
{
    let i = lemma_last_occurrence(island, h, island.len() as int);
    lemma_block_in_vector(before, after, island, i);
}

} // verus!
