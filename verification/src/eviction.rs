//! Eviction planning: given the size and last-access stamp of every cached
//! item and a byte budget, pick the items to delete — oldest stamp first,
//! stopping as soon as what remains fits the budget. The planner is pure;
//! a caller performs the deletions it names.

use vstd::prelude::*;

verus! {

/// Sum of all sizes.
pub open spec fn spec_total_size(sizes: Seq<u64>) -> int
    decreases sizes.len(),
{
    if sizes.len() == 0 {
        0
    } else {
        spec_total_size(sizes.drop_last()) + sizes.last()
    }
}

/// Sum of the sizes at the listed indices, each counted as often as
/// listed; an out-of-range index counts as zero.
pub open spec fn spec_sum_of(sizes: Seq<u64>, idxs: Seq<usize>) -> int
    decreases idxs.len(),
{
    if idxs.len() == 0 {
        0
    } else {
        spec_sum_of(sizes, idxs.drop_last()) + (if (idxs.last() as int) < sizes.len() {
            sizes[idxs.last() as int] as int
        } else {
            0
        })
    }
}

/// Sum of the sizes of the still-alive items among the first `k`.
pub open spec fn spec_sum_alive(sizes: Seq<u64>, alive: Seq<bool>, k: int) -> int
    decreases k,
{
    if k <= 0 {
        0
    } else {
        spec_sum_alive(sizes, alive, k - 1) + (if alive[k - 1] {
            sizes[k - 1] as int
        } else {
            0
        })
    }
}

/// Number of still-alive items among the first `k`.
pub open spec fn spec_count_alive(alive: Seq<bool>, k: int) -> int
    decreases k,
{
    if k <= 0 {
        0
    } else {
        spec_count_alive(alive, k - 1) + (if alive[k - 1] {
            1int
        } else {
            0
        })
    }
}

proof fn lemma_sum_alive_nonneg(sizes: Seq<u64>, alive: Seq<bool>, k: int)
    ensures
        spec_sum_alive(sizes, alive, k) >= 0,
    decreases k,
{
    if k > 0 {
        lemma_sum_alive_nonneg(sizes, alive, k - 1);
    }
}

proof fn lemma_count_alive_nonneg(alive: Seq<bool>, k: int)
    ensures
        spec_count_alive(alive, k) >= 0,
    decreases k,
{
    if k > 0 {
        lemma_count_alive_nonneg(alive, k - 1);
    }
}

/// Two alive maps that agree below `k` give the same sum and count there.
proof fn lemma_alive_agree(sizes: Seq<u64>, a1: Seq<bool>, a2: Seq<bool>, k: int)
    requires
        forall|j: int| 0 <= j < k ==> a1[j] == a2[j],
    ensures
        spec_sum_alive(sizes, a1, k) == spec_sum_alive(sizes, a2, k),
        spec_count_alive(a1, k) == spec_count_alive(a2, k),
    decreases k,
{
    if k > 0 {
        lemma_alive_agree(sizes, a1, a2, k - 1);
    }
}

/// Marking an alive item dead lowers the sum by its size and the count
/// by one.
proof fn lemma_alive_update(sizes: Seq<u64>, alive: Seq<bool>, d: int, k: int)
    requires
        0 <= d < k,
        alive.len() == sizes.len(),
        k <= sizes.len(),
        alive[d],
    ensures
        spec_sum_alive(sizes, alive.update(d, false), k) == spec_sum_alive(sizes, alive, k)
            - sizes[d],
        spec_count_alive(alive.update(d, false), k) == spec_count_alive(alive, k) - 1,
    decreases k,
{
    let a2 = alive.update(d, false);
    if k - 1 == d {
        lemma_alive_agree(sizes, alive, a2, k - 1);
    } else {
        lemma_alive_update(sizes, alive, d, k - 1);
    }
}

/// An alive item bounds the alive sum from below.
proof fn lemma_alive_lower(sizes: Seq<u64>, alive: Seq<bool>, d: int, k: int)
    requires
        0 <= d < k <= sizes.len(),
        alive[d],
    ensures
        spec_sum_alive(sizes, alive, k) >= sizes[d],
    decreases k,
{
    lemma_sum_alive_nonneg(sizes, alive, k - 1);
    if k - 1 != d {
        lemma_alive_lower(sizes, alive, d, k - 1);
    }
}

/// With nothing alive the sum is zero.
proof fn lemma_alive_zero(sizes: Seq<u64>, alive: Seq<bool>, k: int)
    requires
        forall|j: int| 0 <= j < k ==> !alive[j],
    ensures
        spec_sum_alive(sizes, alive, k) == 0,
    decreases k,
{
    if k > 0 {
        lemma_alive_zero(sizes, alive, k - 1);
    }
}

/// With everything alive the sum is the total of the first `k` sizes.
proof fn lemma_alive_all(sizes: Seq<u64>, alive: Seq<bool>, k: int)
    requires
        0 <= k <= sizes.len(),
        forall|j: int| 0 <= j < k ==> alive[j],
    ensures
        spec_sum_alive(sizes, alive, k) == spec_total_size(sizes.take(k)),
    decreases k,
{
    if k > 0 {
        lemma_alive_all(sizes, alive, k - 1);
        assert(sizes.take(k).drop_last() =~= sizes.take(k - 1));
    }
}

/// A total of sizes is never negative.
pub proof fn lemma_total_nonneg(sizes: Seq<u64>)
    ensures
        spec_total_size(sizes) >= 0,
    decreases sizes.len(),
{
    if sizes.len() > 0 {
        lemma_total_nonneg(sizes.drop_last());
    }
}

/// Removing one item lowers the total by exactly its size.
pub proof fn lemma_total_remove(sizes: Seq<u64>, i: int)
    requires
        0 <= i < sizes.len(),
    ensures
        spec_total_size(sizes.remove(i)) == spec_total_size(sizes) - sizes[i],
    decreases sizes.len(),
{
    if i == sizes.len() - 1 {
        assert(sizes.remove(i) =~= sizes.drop_last());
    } else {
        assert(sizes.remove(i).drop_last() =~= sizes.drop_last().remove(i));
        lemma_total_remove(sizes.drop_last(), i);
    }
}

/// Appending one item raises the total by exactly its size.
pub proof fn lemma_total_push(sizes: Seq<u64>, v: u64)
    ensures
        spec_total_size(sizes.push(v)) == spec_total_size(sizes) + v,
{
    assert(sizes.push(v).drop_last() =~= sizes);
}

/// The alive sum only grows with its bound.
pub proof fn lemma_sum_alive_mono(sizes: Seq<u64>, alive: Seq<bool>, k1: int, k2: int)
    requires
        k1 <= k2,
    ensures
        spec_sum_alive(sizes, alive, k1) <= spec_sum_alive(sizes, alive, k2),
    decreases k2 - k1,
{
    if k1 < k2 {
        lemma_sum_alive_mono(sizes, alive, k1, k2 - 1);
    }
}

/// The alive map a deletion plan leaves behind: index `j` survives iff
/// the plan does not name it.
pub open spec fn spec_alive_from(plan: Seq<usize>, n: int) -> Seq<bool> {
    Seq::new(n as nat, |j: int| !plan.contains(j as usize))
}

/// What survives a deletion plan weighs the total minus the planned sizes.
pub proof fn lemma_sum_kept(sizes: Seq<u64>, plan: Seq<usize>)
    requires
        sizes.len() <= usize::MAX,
        forall|k: int| 0 <= k < plan.len() ==> (plan[k] as int) < sizes.len(),
        forall|k1: int, k2: int| 0 <= k1 < k2 < plan.len() ==> plan[k1] != plan[k2],
    ensures
        spec_sum_alive(sizes, spec_alive_from(plan, sizes.len() as int), sizes.len() as int)
            == spec_total_size(sizes) - spec_sum_of(sizes, plan),
        spec_total_size(sizes) - spec_sum_of(sizes, plan) >= 0,
    decreases plan.len(),
{
    let n = sizes.len() as int;
    lemma_sum_alive_nonneg(sizes, spec_alive_from(plan, n), n);
    if plan.len() == 0 {
        assert(forall|j: int| 0 <= j < n ==> !plan.contains(#[trigger] (j as usize)));
        assert(forall|j: int| 0 <= j < n ==> spec_alive_from(plan, n)[j]);
        lemma_alive_all(sizes, spec_alive_from(plan, n), n);
        assert(sizes.take(n) =~= sizes);
    } else {
        let q = plan.drop_last();
        let d = plan.last();
        lemma_sum_kept(sizes, q);
        assert(!q.contains(d)) by {
            if q.contains(d) {
                let w = choose|w: int| 0 <= w < q.len() && q[w] == d;
                assert(plan[w] == plan[plan.len() - 1]);
            }
        }
        assert(spec_alive_from(plan, n) =~= spec_alive_from(q, n).update(d as int, false)) by {
            assert forall|j: int| 0 <= j < n implies spec_alive_from(plan, n)[j]
                == spec_alive_from(q, n).update(d as int, false)[j] by {
                if j == d as int {
                    assert(plan[plan.len() - 1] == d);
                    assert(plan.contains(d));
                } else {
                    if plan.contains(j as usize) {
                        let w = choose|w: int| 0 <= w < plan.len() && plan[w] == j as usize;
                        assert(w != plan.len() - 1);
                        assert(q[w] == plan[w]);
                        assert(q.contains(j as usize));
                    }
                    if q.contains(j as usize) {
                        let w = choose|w: int| 0 <= w < q.len() && q[w] == j as usize;
                        assert(plan[w] == j as usize);
                        assert(plan.contains(j as usize));
                    }
                }
            }
        }
        assert(spec_alive_from(q, n)[d as int]);
        lemma_alive_update(sizes, spec_alive_from(q, n), d as int, n);
    }
}

/// The planned deletions for a set of items with last-access `stamps` and
/// byte `sizes`, against a byte budget of `limit`:
///
/// - every named index is in range and named once;
/// - what remains after the deletions totals at most `limit`;
/// - deletions go oldest stamp first: no planned item is newer than any
///   survivor, and the plan itself is stamp-nondecreasing;
/// - the plan is minimal: without its last entry the remainder would
///   still exceed `limit`.
pub fn plan_eviction(stamps: &Vec<u64>, sizes: &Vec<u64>, limit: u64) -> (r: Vec<usize>)
    requires
        stamps@.len() == sizes@.len(),
    ensures
        forall|k: int| 0 <= k < r@.len() ==> (r@[k] as int) < sizes@.len(),
        forall|k1: int, k2: int| 0 <= k1 < k2 < r@.len() ==> r@[k1] != r@[k2],
        spec_total_size(sizes@) - spec_sum_of(sizes@, r@) <= limit,
        forall|k: int, j: int|
            #![trigger r@[k], stamps@[j]]
            0 <= k < r@.len() && 0 <= j < stamps@.len() && !r@.contains(j as usize)
                ==> stamps@[r@[k] as int] <= stamps@[j],
        forall|k1: int, k2: int|
            0 <= k1 <= k2 < r@.len() ==> stamps@[r@[k1] as int] <= stamps@[r@[k2] as int],
        r@.len() > 0 ==> spec_total_size(sizes@) - spec_sum_of(sizes@, r@.drop_last()) > limit,
{
    let n: usize = sizes.len();
    let mut total: u128 = 0;
    let mut i: usize = 0;
    while i < n
        invariant
            n == sizes@.len(),
            i <= n,
            total == spec_total_size(sizes@.take(i as int)),
            total <= (i as int) * 0xffff_ffff_ffff_ffffu64,
        decreases n - i,
    {
        proof {
            assert(sizes@.take(i + 1).drop_last() =~= sizes@.take(i as int));
            assert((i + 1) as int * 0xffff_ffff_ffff_ffffu64 == (i as int)
                * 0xffff_ffff_ffff_ffffu64 + 0xffff_ffff_ffff_ffffu64);
            assert((i as int) * 0xffff_ffff_ffff_ffffu64 <= 0xffff_ffff_ffff_ffffu64
                * 0xffff_ffff_ffff_ffffu64) by (nonlinear_arith)
                requires
                    0 <= i <= 0xffff_ffff_ffff_ffffu64,
            ;
        }
        total = total + (sizes[i] as u128);
        i = i + 1;
    }
    proof {
        assert(sizes@.take(n as int) =~= sizes@);
    }
    let mut alive: Vec<bool> = Vec::new();
    let mut j: usize = 0;
    while j < n
        invariant
            j <= n,
            alive@.len() == j,
            forall|p: int| 0 <= p < j ==> alive@[p],
        decreases n - j,
    {
        alive.push(true);
        j = j + 1;
    }
    proof {
        lemma_alive_all(sizes@, alive@, n as int);
    }
    let mut r: Vec<usize> = Vec::new();
    while total > (limit as u128)
        invariant
            n == sizes@.len(),
            n == stamps@.len(),
            alive@.len() == n,
            total == spec_sum_alive(sizes@, alive@, n as int),
            spec_sum_alive(sizes@, alive@, n as int) == spec_total_size(sizes@) - spec_sum_of(
                sizes@,
                r@,
            ),
            forall|p: int| 0 <= p < n ==> (alive@[p] <==> !r@.contains(p as usize)),
            forall|k: int| 0 <= k < r@.len() ==> (r@[k] as int) < n,
            forall|k1: int, k2: int| 0 <= k1 < k2 < r@.len() ==> r@[k1] != r@[k2],
            forall|k: int, p: int|
                0 <= k < r@.len() && 0 <= p < n && alive@[p] ==> stamps@[r@[k] as int]
                    <= stamps@[p],
            forall|k1: int, k2: int|
                0 <= k1 <= k2 < r@.len() ==> stamps@[r@[k1] as int] <= stamps@[r@[k2] as int],
            forall|k: int|
                0 <= k < r@.len() ==> spec_total_size(sizes@) - spec_sum_of(
                    sizes@,
                    r@.take(k),
                ) > limit,
        ensures
            total <= limit as u128,
        decreases spec_count_alive(alive@, n as int),
    {
        let mut best: Option<usize> = None;
        let mut s: usize = 0;
        while s < n
            invariant
                n == sizes@.len(),
                n == stamps@.len(),
                alive@.len() == n,
                s <= n,
                match best {
                    None => forall|p: int| 0 <= p < s ==> !alive@[p],
                    Some(b) => (b as int) < n && alive@[b as int] && forall|p: int|
                        0 <= p < s && alive@[p] ==> stamps@[b as int] <= stamps@[p],
                },
            decreases n - s,
        {
            if alive[s] {
                best = match best {
                    None => Some(s),
                    Some(b) => if stamps[s] < stamps[b] {
                        Some(s)
                    } else {
                        Some(b)
                    },
                };
            }
            s = s + 1;
        }
        match best {
            None => {
                proof {
                    lemma_alive_zero(sizes@, alive@, n as int);
                    assert(false);
                }
                break ;
            },
            Some(d) => {
                proof {
                    lemma_alive_lower(sizes@, alive@, d as int, n as int);
                    lemma_alive_update(sizes@, alive@, d as int, n as int);
                    lemma_count_alive_nonneg(alive@.update(d as int, false), n as int);
                    assert(r@.push(d).drop_last() =~= r@);
                    assert(forall|k: int|
                        0 <= k < r@.len() ==> r@.push(d).take(k) =~= r@.take(k));
                    assert(r@.push(d).take(r@.len() as int) =~= r@);
                }
                let ghost old_r = r@;
                let ghost old_alive = alive@;
                r.push(d);
                alive.set(d, false);
                total = total - (sizes[d] as u128);
                proof {
                    assert(r@ == old_r.push(d));
                    assert(r@.take(r@.len() - 1) =~= old_r);
                    assert forall|k: int|
                        0 <= k < r@.len() implies spec_total_size(sizes@) - spec_sum_of(
                        sizes@,
                        r@.take(k),
                    ) > limit by {
                        if k < old_r.len() {
                            assert(r@.take(k) =~= old_r.take(k));
                        } else {
                            assert(r@.take(k) =~= old_r);
                        }
                    }
                    assert forall|p: int| 0 <= p < n implies (alive@[p] <==> !r@.contains(
                        p as usize,
                    )) by {
                        if p == d {
                            assert(r@[r@.len() - 1] == d);
                            assert(r@.contains(d));
                        } else {
                            if r@.contains(p as usize) {
                                let w = choose|w: int|
                                    0 <= w < r@.len() && r@[w] == p as usize;
                                if w < old_r.len() {
                                    assert(old_r.contains(p as usize));
                                }
                            }
                            if old_r.contains(p as usize) {
                                let w = choose|w: int|
                                    0 <= w < old_r.len() && old_r[w] == p as usize;
                                assert(r@[w] == p as usize);
                            }
                        }
                    }
                }
            },
        }
    }
    proof {
        assert forall|k: int, j: int|
            #![trigger r@[k], stamps@[j]]
            0 <= k < r@.len() && 0 <= j < stamps@.len() && !r@.contains(j as usize) implies stamps@[
            r@[k] as int] <= stamps@[j] by {
            assert(alive@[j]);
        }
    }
    r
}

} // verus!
