use crate::constraint::{Constraint, ConstraintSet, Sign};
use crate::jacobian::Region;
use vstd::prelude::*;

verus! {

/// The constraint belongs to the category given by `sign` and `region`.
pub open spec fn in_category(c: Constraint, sign: Sign, region: Region) -> bool {
    c.sign == sign && c.region == region
}

/// Positions, among the first `n` constraints, of those of one category, in
/// the order in which they were generated.
pub open spec fn category_indices(
    rows: Seq<Constraint>,
    n: nat,
    sign: Sign,
    region: Region,
) -> Seq<usize>
    decreases n,
{
    if n == 0 || n > rows.len() {
        Seq::empty()
    } else {
        let rest = category_indices(rows, (n - 1) as nat, sign, region);
        if in_category(rows[n - 1], sign, region) {
            rest.push((n - 1) as usize)
        } else {
            rest
        }
    }
}

/// Positions of the constraints in the order in which one sweep of the
/// velocity solver visits them: ground bilateral, ground unilateral, paired
/// bilateral, paired unilateral, each category in generation order.
pub open spec fn sweep(rows: Seq<Constraint>) -> Seq<usize> {
    category_indices(rows, rows.len(), Sign::Bilateral, Region::Ground) + category_indices(
        rows,
        rows.len(),
        Sign::Unilateral,
        Region::Ground,
    ) + category_indices(rows, rows.len(), Sign::Bilateral, Region::Paired) + category_indices(
        rows,
        rows.len(),
        Sign::Unilateral,
        Region::Paired,
    )
}

/// The positions of a category are below `n`, name constraints of that
/// category, grow strictly, and leave out no constraint of the category.
pub proof fn lemma_category_indices(rows: Seq<Constraint>, n: nat, sign: Sign, region: Region)
    requires
        n <= rows.len(),
        rows.len() <= usize::MAX,
    ensures
        forall|p: int|
            0 <= p < category_indices(rows, n, sign, region).len() ==> (#[trigger] category_indices(
                rows,
                n,
                sign,
                region,
            )[p]) < n && in_category(
                rows[category_indices(rows, n, sign, region)[p] as int],
                sign,
                region,
            ),
        forall|p: int, q: int|
            0 <= p < q < category_indices(rows, n, sign, region).len() ==> (#[trigger] category_indices(
                rows,
                n,
                sign,
                region,
            )[p]) < (#[trigger] category_indices(rows, n, sign, region)[q]),
        forall|i: int|
            0 <= i < n && in_category(#[trigger] rows[i], sign, region) ==> category_indices(
                rows,
                n,
                sign,
                region,
            ).contains(i as usize),
    decreases n,
{
    if n > 0 {
        let m = (n - 1) as nat;
        lemma_category_indices(rows, m, sign, region);
        let rest = category_indices(rows, m, sign, region);
        let all = category_indices(rows, n, sign, region);
        assert forall|i: int| 0 <= i < n && in_category(#[trigger] rows[i], sign, region) implies all.contains(
            i as usize,
        ) by {
            if i < m {
                let p = choose|p: int| 0 <= p < rest.len() && rest[p] == i as usize;
                assert(all[p] == i as usize);
            } else {
                assert(all[all.len() - 1] == i as usize);
            }
        }
    }
}

/// A sweep visits every constraint, and none twice.
pub proof fn lemma_sweep_visits_each_once(rows: Seq<Constraint>)
    requires
        rows.len() <= usize::MAX,
    ensures
        forall|p: int| 0 <= p < sweep(rows).len() ==> (#[trigger] sweep(rows)[p]) < rows.len(),
        forall|i: usize| i < rows.len() ==> #[trigger] sweep(rows).contains(i),
        sweep(rows).no_duplicates(),
{
    let n = rows.len();
    let a = category_indices(rows, n, Sign::Bilateral, Region::Ground);
    let b = category_indices(rows, n, Sign::Unilateral, Region::Ground);
    let c = category_indices(rows, n, Sign::Bilateral, Region::Paired);
    let d = category_indices(rows, n, Sign::Unilateral, Region::Paired);
    lemma_category_indices(rows, n, Sign::Bilateral, Region::Ground);
    lemma_category_indices(rows, n, Sign::Unilateral, Region::Ground);
    lemma_category_indices(rows, n, Sign::Bilateral, Region::Paired);
    lemma_category_indices(rows, n, Sign::Unilateral, Region::Paired);
    let s = sweep(rows);
    assert(s == a + b + c + d);
    assert forall|i: usize| i < n implies #[trigger] s.contains(i) by {
        let row = rows[i as int];
        if in_category(row, Sign::Bilateral, Region::Ground) {
            let p = choose|p: int| 0 <= p < a.len() && a[p] == i;
            assert(s[p] == i);
        } else if in_category(row, Sign::Unilateral, Region::Ground) {
            let p = choose|p: int| 0 <= p < b.len() && b[p] == i;
            assert(s[a.len() + p] == i);
        } else if in_category(row, Sign::Bilateral, Region::Paired) {
            let p = choose|p: int| 0 <= p < c.len() && c[p] == i;
            assert(s[a.len() + b.len() + p] == i);
        } else {
            assert(in_category(row, Sign::Unilateral, Region::Paired));
            let p = choose|p: int| 0 <= p < d.len() && d[p] == i;
            assert(s[a.len() + b.len() + c.len() + p] == i);
        }
    }
    assert forall|p: int, q: int| 0 <= p < s.len() && 0 <= q < s.len() && p != q implies s[p]
        != s[q] by {
        lemma_sweep_entry(a, b, c, d, p);
        lemma_sweep_entry(a, b, c, d, q);
    }
    assert forall|p: int| 0 <= p < s.len() implies (#[trigger] s[p]) < n by {
        lemma_sweep_entry(a, b, c, d, p);
    }
}

/// An entry of four sequences joined end to end is an entry of one of them.
proof fn lemma_sweep_entry(a: Seq<usize>, b: Seq<usize>, c: Seq<usize>, d: Seq<usize>, p: int)
    requires
        0 <= p < (a + b + c + d).len(),
    ensures
        p < a.len() ==> (a + b + c + d)[p] == a[p],
        a.len() <= p < a.len() + b.len() ==> (a + b + c + d)[p] == b[p - a.len()],
        a.len() + b.len() <= p < a.len() + b.len() + c.len() ==> (a + b + c + d)[p] == c[p
            - a.len() - b.len()],
        a.len() + b.len() + c.len() <= p ==> (a + b + c + d)[p] == d[p - a.len() - b.len()
            - c.len()],
        (a + b + c + d).len() == a.len() + b.len() + c.len() + d.len(),
{
}

/// Positions of the constraints of one category, in generation order.
pub fn category(set: &ConstraintSet, sign: Sign, region: Region) -> (r: Vec<usize>)
    ensures
        r@ == category_indices(set.velocity@, set.velocity@.len(), sign, region),
{
    let mut out: Vec<usize> = Vec::new();
    append_category(set, sign, region, &mut out);
    out
}

/// Appends the positions of the constraints of one category to `out`.
fn append_category(set: &ConstraintSet, sign: Sign, region: Region, out: &mut Vec<usize>)
    ensures
        final(out)@ == old(out)@ + category_indices(
            set.velocity@,
            set.velocity@.len(),
            sign,
            region,
        ),
{
    let ghost first = out@;
    let mut i: usize = 0;
    assert(out@ =~= first + category_indices(set.velocity@, 0, sign, region));
    while i < set.velocity.len()
        invariant
            i <= set.velocity@.len(),
            out@ == first + category_indices(set.velocity@, i as nat, sign, region),
        decreases set.velocity@.len() - i,
    {
        let c = set.velocity[i];
        if c.sign == sign && c.region == region {
            out.push(i);
        }
        i = i + 1;
        assert(out@ =~= first + category_indices(set.velocity@, i as nat, sign, region));
    }
}

/// The order in which one sweep of the velocity solver visits the
/// constraints, as positions in the set.
pub fn sweep_order(set: &ConstraintSet) -> (r: Vec<usize>)
    ensures
        r@ == sweep(set.velocity@),
{
    let mut out: Vec<usize> = Vec::new();
    append_category(set, Sign::Bilateral, Region::Ground, &mut out);
    append_category(set, Sign::Unilateral, Region::Ground, &mut out);
    append_category(set, Sign::Bilateral, Region::Paired, &mut out);
    append_category(set, Sign::Unilateral, Region::Paired, &mut out);
    assert(out@ =~= sweep(set.velocity@));
    out
}

} // verus!
