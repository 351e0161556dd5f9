//! The shared model of rank-based pool clearing.
//!
//! Both clearing stages of a round distribute a finite pool over the firms
//! in rank order: goods clearing ranks by usefulness and distributes users,
//! labor clearing ranks by offered wage and distributes workers.  A firm
//! below the eligibility floor receives nothing.  Firms are served in
//! descending key order, ties in input order; each is served its full demand
//! if the pool still covers it and the remainder otherwise.
//!
//! The model here is a closed form of that greedy walk: when a firm's turn
//! comes, the pool units already taken equal the total eligible demand of
//! the firms served before it, capped at the pool size.  So the remainder a
//! firm sees is the pool minus the eligible demand served before it, floored
//! at zero, and its allocation is the smaller of that remainder and its own
//! demand.

use vstd::prelude::*;

verus! {

/// Whether firm `j` is served before firm `i`: a strictly greater key wins,
/// and ties are served in input order.  For `j != i` exactly one of
/// `served_before(keys, j, i)` and `served_before(keys, i, j)` holds, so
/// this relation ranks the firms totally.
pub open spec fn served_before(keys: Seq<int>, j: int, i: int) -> bool {
    keys[j] > keys[i] || (keys[j] == keys[i] && j < i)
}

/// The demand firm `j` places on the pool: its full demand if its key meets
/// the eligibility floor, nothing otherwise.
pub open spec fn eligible_demand(keys: Seq<int>, demands: Seq<int>, floor: int, j: int) -> int {
    if keys[j] >= floor {
        demands[j]
    } else {
        0
    }
}

/// Sum of the eligible demand of the firms `j < k` that satisfy `pred`.
pub open spec fn demand_sum(
    keys: Seq<int>,
    demands: Seq<int>,
    floor: int,
    pred: spec_fn(int) -> bool,
    k: int,
) -> int
    decreases k,
{
    if k <= 0 {
        0
    } else {
        demand_sum(keys, demands, floor, pred, k - 1) + if pred(k - 1) {
            eligible_demand(keys, demands, floor, k - 1)
        } else {
            0
        }
    }
}

/// The eligible demand of every firm served before firm `i`.
pub open spec fn demand_before(keys: Seq<int>, demands: Seq<int>, floor: int, i: int) -> int {
    demand_sum(keys, demands, floor, |j: int| served_before(keys, j, i), keys.len() as int)
}

/// The pool units still unallocated when firm `i`'s turn comes.
pub open spec fn pool_remaining(
    keys: Seq<int>,
    demands: Seq<int>,
    pool: int,
    floor: int,
    i: int,
) -> int {
    let taken = demand_before(keys, demands, floor, i);
    if taken >= pool {
        0
    } else {
        pool - taken
    }
}

/// The pool units allocated to firm `i`: nothing below the eligibility
/// floor, otherwise its full demand when the remaining pool covers it and
/// the remaining pool otherwise.
pub open spec fn allocated(
    keys: Seq<int>,
    demands: Seq<int>,
    pool: int,
    floor: int,
    i: int,
) -> int {
    if keys[i] >= floor {
        let rem = pool_remaining(keys, demands, pool, floor, i);
        if demands[i] <= rem {
            demands[i]
        } else {
            rem
        }
    } else {
        0
    }
}

/// The total eligible demand of all firms.
pub open spec fn total_eligible_demand(keys: Seq<int>, demands: Seq<int>, floor: int) -> int {
    demand_sum(keys, demands, floor, |j: int| true, keys.len() as int)
}

/// The pool units left once every firm has been served.
pub open spec fn pool_left(keys: Seq<int>, demands: Seq<int>, pool: int, floor: int) -> int {
    let taken = total_eligible_demand(keys, demands, floor);
    if taken >= pool {
        0
    } else {
        pool - taken
    }
}

/// A demand sum over non-negative demands is non-negative.
pub proof fn lemma_demand_sum_nonneg(
    keys: Seq<int>,
    demands: Seq<int>,
    floor: int,
    pred: spec_fn(int) -> bool,
    k: int,
)
    requires
        k <= demands.len(),
        forall|j: int| 0 <= j < demands.len() ==> #[trigger] demands[j] >= 0,
    ensures
        demand_sum(keys, demands, floor, pred, k) >= 0,
    decreases k,
{
    if k > 0 {
        lemma_demand_sum_nonneg(keys, demands, floor, pred, k - 1);
    }
}

/// The pool remainder after clearing lies between zero and the pool size.
pub proof fn lemma_pool_left_range(keys: Seq<int>, demands: Seq<int>, pool: int, floor: int)
    requires
        pool >= 0,
        keys.len() == demands.len(),
        forall|j: int| 0 <= j < demands.len() ==> #[trigger] demands[j] >= 0,
    ensures
        0 <= pool_left(keys, demands, pool, floor) <= pool,
{
    lemma_demand_sum_nonneg(keys, demands, floor, |j: int| true, keys.len() as int);
}

/// A demand sum grows when the selecting predicate widens.
proof fn lemma_demand_sum_monotone(
    keys: Seq<int>,
    demands: Seq<int>,
    floor: int,
    p1: spec_fn(int) -> bool,
    p2: spec_fn(int) -> bool,
    k: int,
)
    requires
        k <= demands.len(),
        forall|j: int| 0 <= j < demands.len() && #[trigger] p1(j) ==> p2(j),
        forall|j: int| 0 <= j < demands.len() ==> #[trigger] demands[j] >= 0,
    ensures
        demand_sum(keys, demands, floor, p1, k) <= demand_sum(keys, demands, floor, p2, k),
    decreases k,
{
    if k > 0 {
        lemma_demand_sum_monotone(keys, demands, floor, p1, p2, k - 1);
    }
}

/// A demand sum grows by at least the eligible demand of one extra index
/// when the selecting predicate widens to include it.
proof fn lemma_demand_sum_extra(
    keys: Seq<int>,
    demands: Seq<int>,
    floor: int,
    p1: spec_fn(int) -> bool,
    p2: spec_fn(int) -> bool,
    x: int,
    k: int,
)
    requires
        k <= demands.len(),
        0 <= x < k,
        p2(x),
        !p1(x),
        forall|j: int| 0 <= j < demands.len() && #[trigger] p1(j) ==> p2(j),
        forall|j: int| 0 <= j < demands.len() ==> #[trigger] demands[j] >= 0,
    ensures
        demand_sum(keys, demands, floor, p1, k) + eligible_demand(keys, demands, floor, x)
            <= demand_sum(keys, demands, floor, p2, k),
    decreases k,
{
    if x == k - 1 {
        lemma_demand_sum_monotone(keys, demands, floor, p1, p2, k - 1);
    } else {
        lemma_demand_sum_extra(keys, demands, floor, p1, p2, x, k - 1);
    }
}

/// Rank priority: a firm with a strictly greater key is served earlier,
/// the demand standing before it is no larger, and whenever it is eligible
/// and the pool covers the demand before it together with its own, it is
/// allocated everything it asked for.
pub proof fn lemma_rank_priority(
    keys: Seq<int>,
    demands: Seq<int>,
    pool: int,
    floor: int,
    a: int,
    b: int,
)
    requires
        keys.len() == demands.len(),
        forall|j: int| 0 <= j < demands.len() ==> #[trigger] demands[j] >= 0,
        0 <= a < keys.len(),
        0 <= b < keys.len(),
        keys[a] > keys[b],
    ensures
        served_before(keys, a, b),
        demand_before(keys, demands, floor, a) <= demand_before(keys, demands, floor, b),
        keys[a] >= floor && demand_before(keys, demands, floor, a) + demands[a] <= pool
            ==> allocated(keys, demands, pool, floor, a) == demands[a],
{
    let pa = |j: int| served_before(keys, j, a);
    let pb = |j: int| served_before(keys, j, b);
    assert forall|j: int| 0 <= j < demands.len() && #[trigger] pa(j) implies pb(j) by {
        assert(served_before(keys, j, a));
    }
    lemma_demand_sum_monotone(keys, demands, floor, pa, pb, keys.len() as int);
}

/// Sum of the allocations of the firms whose indices `s` lists.
pub open spec fn alloc_sum_over(
    keys: Seq<int>,
    demands: Seq<int>,
    pool: int,
    floor: int,
    s: Seq<int>,
) -> int
    decreases s.len(),
{
    if s.len() == 0 {
        0
    } else {
        alloc_sum_over(keys, demands, pool, floor, s.drop_last()) + allocated(
            keys,
            demands,
            pool,
            floor,
            s.last(),
        )
    }
}

/// The index, among those `s` lists, of the firm served before every
/// other.
spec fn first_served(keys: Seq<int>, s: Seq<int>) -> int
    recommends
        s.len() > 0,
    decreases s.len(),
{
    if s.len() <= 1 {
        s[0]
    } else {
        let m = first_served(keys, s.drop_last());
        if served_before(keys, s.last(), m) {
            s.last()
        } else {
            m
        }
    }
}

/// The first-served index is listed in `s` and is served before every
/// other index listed there.
proof fn lemma_first_served_props(keys: Seq<int>, s: Seq<int>)
    requires
        s.len() > 0,
    ensures
        exists|t: int| 0 <= t < s.len() && s[t] == first_served(keys, s),
        forall|t: int|
            0 <= t < s.len() && s[t] != first_served(keys, s) ==> served_before(
                keys,
                first_served(keys, s),
                #[trigger] s[t],
            ),
    decreases s.len(),
{
    if s.len() == 1 {
        assert(s[0] == first_served(keys, s));
    } else {
        lemma_first_served_props(keys, s.drop_last());
        let m0 = first_served(keys, s.drop_last());
        let m = first_served(keys, s);
        if served_before(keys, s.last(), m0) {
            assert(s[s.len() - 1] == m);
            assert forall|t: int| 0 <= t < s.len() && s[t] != m implies served_before(
                keys,
                m,
                s[t],
            ) by {
                if t < s.len() - 1 {
                    assert(s.drop_last()[t] == s[t]);
                    if s[t] != m0 {
                        assert(served_before(keys, m0, s[t]));
                    }
                }
            }
        } else {
            assert(m == m0);
            let ghost w = choose|t: int| 0 <= t < s.drop_last().len() && s.drop_last()[t] == m0;
            assert(s[w] == m0);
            assert forall|t: int| 0 <= t < s.len() && s[t] != m implies served_before(
                keys,
                m,
                s[t],
            ) by {
                if t < s.len() - 1 {
                    assert(s.drop_last()[t] == s[t]);
                } else {
                    assert(s[t] == s.last());
                    assert(!served_before(keys, s.last(), m0));
                    assert(served_before(keys, m0, s.last()));
                }
            }
        }
    }
}

/// Removing one listed index from an allocation sum removes exactly that
/// firm's allocation.
proof fn lemma_alloc_sum_remove(
    keys: Seq<int>,
    demands: Seq<int>,
    pool: int,
    floor: int,
    s: Seq<int>,
    t: int,
)
    requires
        0 <= t < s.len(),
    ensures
        alloc_sum_over(keys, demands, pool, floor, s) == alloc_sum_over(
            keys,
            demands,
            pool,
            floor,
            s.remove(t),
        ) + allocated(keys, demands, pool, floor, s[t]),
    decreases s.len(),
{
    if t == s.len() - 1 {
        assert(s.remove(t) =~= s.drop_last());
    } else {
        assert(s.remove(t).drop_last() =~= s.drop_last().remove(t));
        assert(s.remove(t).last() == s.last());
        lemma_alloc_sum_remove(keys, demands, pool, floor, s.drop_last(), t);
    }
}

/// A firm served later sees at least the demand standing before an
/// earlier-served firm together with that firm's own eligible demand.
proof fn lemma_demand_before_step(keys: Seq<int>, demands: Seq<int>, floor: int, a: int, b: int)
    requires
        keys.len() == demands.len(),
        forall|j: int| 0 <= j < demands.len() ==> #[trigger] demands[j] >= 0,
        0 <= a < keys.len(),
        0 <= b < keys.len(),
        served_before(keys, a, b),
    ensures
        demand_before(keys, demands, floor, b) >= demand_before(keys, demands, floor, a)
            + eligible_demand(keys, demands, floor, a),
{
    let pa = |j: int| served_before(keys, j, a);
    let pb = |j: int| served_before(keys, j, b);
    assert forall|j: int| 0 <= j < demands.len() && #[trigger] pa(j) implies pb(j) by {
        assert(served_before(keys, j, a));
    }
    assert(pb(a));
    assert(!pa(a));
    lemma_demand_sum_extra(keys, demands, floor, pa, pb, a, keys.len() as int);
}

/// Over any list of distinct firm indices, the allocations sum to no more
/// than the pool remaining when the first-served of them is reached.
proof fn lemma_alloc_sum_within_remaining(
    keys: Seq<int>,
    demands: Seq<int>,
    pool: int,
    floor: int,
    s: Seq<int>,
)
    requires
        keys.len() == demands.len(),
        forall|j: int| 0 <= j < demands.len() ==> #[trigger] demands[j] >= 0,
        s.len() > 0,
        forall|t: int| 0 <= t < s.len() ==> 0 <= #[trigger] s[t] < keys.len(),
        forall|t1: int, t2: int| 0 <= t1 < t2 < s.len() ==> #[trigger] s[t1] != #[trigger] s[t2],
    ensures
        alloc_sum_over(keys, demands, pool, floor, s) <= pool_remaining(
            keys,
            demands,
            pool,
            floor,
            first_served(keys, s),
        ),
    decreases s.len(),
{
    lemma_first_served_props(keys, s);
    let m = first_served(keys, s);
    if s.len() == 1 {
        assert(s.drop_last().len() == 0);
        assert(alloc_sum_over(keys, demands, pool, floor, s.drop_last()) == 0);
        assert(alloc_sum_over(keys, demands, pool, floor, s) == allocated(
            keys,
            demands,
            pool,
            floor,
            s[0],
        ));
    } else {
        let t = choose|t: int| 0 <= t < s.len() && s[t] == m;
        let s2 = s.remove(t);
        assert(s2.len() == s.len() - 1);
        assert forall|u: int| 0 <= u < s2.len() implies 0 <= #[trigger] s2[u] < keys.len() by {
            if u < t {
                assert(s2[u] == s[u]);
            } else {
                assert(s2[u] == s[u + 1]);
            }
        }
        assert forall|u1: int, u2: int| 0 <= u1 < u2 < s2.len() implies #[trigger] s2[u1]
            != #[trigger] s2[u2] by {
            if u1 < t {
                assert(s2[u1] == s[u1]);
            } else {
                assert(s2[u1] == s[u1 + 1]);
            }
            if u2 < t {
                assert(s2[u2] == s[u2]);
            } else {
                assert(s2[u2] == s[u2 + 1]);
            }
        }
        lemma_alloc_sum_remove(keys, demands, pool, floor, s, t);
        lemma_alloc_sum_within_remaining(keys, demands, pool, floor, s2);
        let m2 = first_served(keys, s2);
        lemma_first_served_props(keys, s2);
        let u = choose|u: int| 0 <= u < s2.len() && s2[u] == m2;
        assert(s.contains(m2)) by {
            if u < t {
                assert(s[u] == m2);
            } else {
                assert(s[u + 1] == m2);
            }
        }
        assert(m2 != m) by {
            if u < t {
                assert(s2[u] == s[u]);
            } else {
                assert(s2[u] == s[u + 1]);
            }
        }
        let tw = choose|tw: int| 0 <= tw < s.len() && s[tw] == m2;
        assert(served_before(keys, m, m2));
        lemma_demand_before_step(keys, demands, floor, m, m2);
        assert(alloc_sum_over(keys, demands, pool, floor, s) <= pool_remaining(
            keys,
            demands,
            pool,
            floor,
            m,
        ));
    }
}

/// Sum of the allocations of the first `k` firms.
pub open spec fn alloc_sum_upto(
    keys: Seq<int>,
    demands: Seq<int>,
    pool: int,
    floor: int,
    k: int,
) -> int
    decreases k,
{
    if k <= 0 {
        0
    } else {
        alloc_sum_upto(keys, demands, pool, floor, k - 1) + allocated(
            keys,
            demands,
            pool,
            floor,
            k - 1,
        )
    }
}

/// A prefix allocation sum is the allocation sum over the prefix's index
/// list.
proof fn lemma_alloc_sum_upto_as_over(
    keys: Seq<int>,
    demands: Seq<int>,
    pool: int,
    floor: int,
    k: int,
)
    requires
        0 <= k,
    ensures
        alloc_sum_upto(keys, demands, pool, floor, k) == alloc_sum_over(
            keys,
            demands,
            pool,
            floor,
            Seq::new(k as nat, |i: int| i),
        ),
    decreases k,
{
    if k > 0 {
        lemma_alloc_sum_upto_as_over(keys, demands, pool, floor, k - 1);
        assert(Seq::new(k as nat, |i: int| i).drop_last() =~= Seq::new(
            (k - 1) as nat,
            |i: int| i,
        ));
    }
}

/// The firms' allocations never exceed the pool, taken all together.
pub proof fn lemma_alloc_sum_within_pool(keys: Seq<int>, demands: Seq<int>, pool: int, floor: int)
    requires
        keys.len() == demands.len(),
        forall|j: int| 0 <= j < demands.len() ==> #[trigger] demands[j] >= 0,
        pool >= 0,
    ensures
        alloc_sum_upto(keys, demands, pool, floor, keys.len() as int) <= pool,
{
    let n = keys.len() as int;
    lemma_alloc_sum_upto_as_over(keys, demands, pool, floor, n);
    if n > 0 {
        let s = Seq::new(n as nat, |i: int| i);
        lemma_alloc_sum_within_remaining(keys, demands, pool, floor, s);
        let m = first_served(keys, s);
        lemma_first_served_props(keys, s);
        lemma_demand_sum_nonneg(
            keys,
            demands,
            floor,
            |j: int| served_before(keys, j, m),
            keys.len() as int,
        );
    }
}

/// The view of a vector of counters as a sequence of integers.
pub open spec fn int_seq(s: Seq<u32>) -> Seq<int> {
    s.map_values(|x: u32| x as int)
}

/// Computes, for every firm, its allocation from a pool distributed in
/// descending key order with ties served in input order, and the pool
/// remainder once every firm is served.
pub fn clear_allocations(keys: &Vec<u32>, demands: &Vec<u32>, pool: u32, floor: u32) -> (r: (
    Vec<u32>,
    u32,
))
    requires
        keys@.len() == demands@.len(),
    ensures
        r.0@.len() == keys@.len(),
        forall|i: int|
            0 <= i < keys@.len() ==> #[trigger] r.0@[i] as int == allocated(
                int_seq(keys@),
                int_seq(demands@),
                pool as int,
                floor as int,
                i,
            ),
        r.1 as int == pool_left(int_seq(keys@), int_seq(demands@), pool as int, floor as int),
{
    let ghost ks = int_seq(keys@);
    let ghost ds = int_seq(demands@);
    let n = keys.len();
    let mut alloc: Vec<u32> = Vec::new();
    for i in 0..n
        invariant
            n == keys@.len() == demands@.len(),
            ks == int_seq(keys@),
            ds == int_seq(demands@),
            alloc@.len() == i,
            forall|t: int|
                0 <= t < i ==> #[trigger] alloc@[t] as int == allocated(
                    ks,
                    ds,
                    pool as int,
                    floor as int,
                    t,
                ),
    {
        let ghost pred = |j: int| served_before(ks, j, i as int);
        let mut taken: u128 = 0;
        for j in 0..n
            invariant
                n == keys@.len() == demands@.len(),
                ks == int_seq(keys@),
                ds == int_seq(demands@),
                i < n,
                taken as int == demand_sum(ks, ds, floor as int, pred, j as int),
                taken <= (j as u128) * (u32::MAX as u128),
                pred == (|j: int| served_before(ks, j, i as int)),
        {
            if keys[j] > keys[i] || (keys[j] == keys[i] && j < i) {
                assert(pred(j as int));
                if keys[j] >= floor {
                    taken = taken + demands[j] as u128;
                } else {
                    assert(eligible_demand(ks, ds, floor as int, j as int) == 0);
                }
            } else {
                assert(!pred(j as int));
            }
            assert((j as u128) * (u32::MAX as u128) + (u32::MAX as u128) == ((j + 1) as u128) * (
            u32::MAX as u128)) by (nonlinear_arith);
        }
        assert(taken as int == demand_before(ks, ds, floor as int, i as int));
        let remaining: u32 = if taken >= pool as u128 {
            0
        } else {
            (pool as u128 - taken) as u32
        };
        assert(remaining as int == pool_remaining(ks, ds, pool as int, floor as int, i as int));
        let a: u32 = if keys[i] >= floor {
            if demands[i] <= remaining {
                demands[i]
            } else {
                remaining
            }
        } else {
            0
        };
        alloc.push(a);
    }
    let ghost pred_all = |j: int| true;
    let mut total: u128 = 0;
    for j in 0..n
        invariant
            n == keys@.len() == demands@.len(),
            ks == int_seq(keys@),
            ds == int_seq(demands@),
            total as int == demand_sum(ks, ds, floor as int, pred_all, j as int),
            total <= (j as u128) * (u32::MAX as u128),
            pred_all == (|j: int| true),
    {
        if keys[j] >= floor {
            total = total + demands[j] as u128;
        }
        assert((j as u128) * (u32::MAX as u128) + (u32::MAX as u128) == ((j + 1) as u128) * (
        u32::MAX as u128)) by (nonlinear_arith);
    }
    let left: u32 = if total >= pool as u128 {
        0
    } else {
        (pool as u128 - total) as u32
    };
    (alloc, left)
}

} // verus!
