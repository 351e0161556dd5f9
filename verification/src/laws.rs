//! Laws of the round-resolution pipeline, stated and proved over the
//! market model: the pools stay within capacity, goods clearing respects
//! rank, total sales never exceed the user pool, and bankruptcy is final.

use crate::clearing::{
    alloc_sum_upto, demand_before, lemma_alloc_sum_within_pool, lemma_pool_left_range,
    lemma_rank_priority, served_before,
};
use crate::firm::FirmModel;
use crate::market::{
    debited, distinct_names, firm_after_goods, firm_after_labor, firm_with_danger, goods_demands,
    goods_keys, goods_sold, goods_stage, hired_market, labor_demands, labor_keys, labor_stage,
    pay_stage, price_stage, round_mid, round_resolution, solvent, surviving, MarketModel,
};
use crate::trend::profit_trend;
use vstd::prelude::*;

verus! {

/// Whether every per-firm counter the clearing stages read is
/// non-negative.  The view of any market holds this by construction, since
/// the counters are unsigned.
pub open spec fn counters_nonneg(m: MarketModel) -> bool {
    &&& m.users >= 0
    &&& m.labor_supply >= 0
    &&& forall|i: int|
        0 <= i < m.firms.len() ==> #[trigger] m.firms[i].servings >= 0 && m.firms[i].number_to_hire
            >= 0
}

/// Whether some firm of the collection carries the given name.
pub open spec fn has_firm_named(firms: Seq<FirmModel>, nm: Seq<char>) -> bool {
    exists|j: int| 0 <= j < firms.len() && #[trigger] firms[j].name == nm
}

/// The units sold by all firms together in goods clearing.
pub open spec fn total_units_sold(m: MarketModel) -> int {
    alloc_sum_upto(
        goods_keys(m.firms),
        goods_demands(m.firms),
        m.users,
        m.min_usefulness_per_user,
        m.firms.len() as int,
    )
}

/// Each surviving firm of wage payment is some solvent input firm with its
/// wage bill debited, and no firm is added.
proof fn lemma_surviving_membership(firms: Seq<FirmModel>)
    ensures
        surviving(firms).len() <= firms.len(),
        forall|j: int|
            0 <= j < surviving(firms).len() ==> exists|k: int|
                0 <= k < firms.len() && #[trigger] surviving(firms)[j] == debited(firms[k])
                    && solvent(firms[k]),
    decreases firms.len(),
{
    if firms.len() > 0 {
        lemma_surviving_membership(firms.drop_last());
        assert forall|j: int| 0 <= j < surviving(firms).len() implies exists|k: int|
            0 <= k < firms.len() && #[trigger] surviving(firms)[j] == debited(firms[k]) && solvent(
            firms[k],
        ) by {
            let pre = surviving(firms.drop_last());
            if j < pre.len() {
                let k = choose|k: int|
                    0 <= k < firms.drop_last().len() && #[trigger] pre[j] == debited(
                        firms.drop_last()[k],
                    ) && solvent(firms.drop_last()[k]);
                assert(firms.drop_last()[k] == firms[k]);
                assert(surviving(firms)[j] == pre[j]);
            } else {
                let k = firms.len() - 1;
                assert(surviving(firms)[j] == debited(firms[k]) && solvent(firms[k]));
            }
        }
    }
}

/// Every stage but wage payment keeps the firm count and every firm's
/// name; wage payment keeps the names of the firms it keeps.
proof fn lemma_stage_names(m: MarketModel)
    ensures
        goods_stage(m).firms.len() == m.firms.len(),
        forall|i: int|
            0 <= i < m.firms.len() ==> #[trigger] goods_stage(m).firms[i].name == m.firms[i].name,
        price_stage(m).firms.len() == m.firms.len(),
        forall|i: int|
            0 <= i < m.firms.len() ==> #[trigger] price_stage(m).firms[i].name == m.firms[i].name,
        labor_stage(m).firms.len() == m.firms.len(),
        forall|i: int|
            0 <= i < m.firms.len() ==> #[trigger] labor_stage(m).firms[i].name == m.firms[i].name,
{
    assert forall|i: int| 0 <= i < m.firms.len() implies #[trigger] labor_stage(m).firms[i].name
        == m.firms[i].name by {
        assert(hired_market(m).firms[i] == firm_after_labor(
            m.firms[i],
            crate::market::labor_hired(m, i),
        ));
        assert(labor_stage(m).firms[i] == firm_with_danger(
            hired_market(m).firms[i],
            hired_market(m),
        ));
    }
}

/// After a round resolves, the leftover pools lie between zero and their
/// capacities, which the round leaves untouched.
pub proof fn lemma_pools_within_capacity(m: MarketModel)
    requires
        counters_nonneg(m),
    ensures
        round_resolution(m).users == m.users,
        round_resolution(m).labor_supply == m.labor_supply,
        0 <= round_resolution(m).users_left <= m.users,
        0 <= round_resolution(m).workers_left <= m.labor_supply,
{
    assert forall|j: int| 0 <= j < goods_demands(m.firms).len() implies #[trigger] goods_demands(
        m.firms,
    )[j] >= 0 by {
        assert(goods_demands(m.firms)[j] == m.firms[j].servings);
    }
    lemma_pool_left_range(
        goods_keys(m.firms),
        goods_demands(m.firms),
        m.users,
        m.min_usefulness_per_user,
    );
    let mid = round_mid(m);
    lemma_surviving_membership(goods_stage(m).firms);
    assert forall|j: int| 0 <= j < labor_demands(mid.firms).len() implies #[trigger] labor_demands(
        mid.firms,
    )[j] >= 0 by {
        assert(labor_demands(mid.firms)[j] == mid.firms[j].number_to_hire);
        assert(mid.firms[j] == (FirmModel {
            share_price: crate::market::share_price_of(pay_stage(goods_stage(m)).firms[j]),
            ..pay_stage(goods_stage(m)).firms[j]
        }));
        let k = choose|k: int|
            0 <= k < goods_stage(m).firms.len() && #[trigger] surviving(goods_stage(m).firms)[j]
                == debited(goods_stage(m).firms[k]) && solvent(goods_stage(m).firms[k]);
        assert(goods_stage(m).firms[k] == firm_after_goods(m.firms[k], goods_sold(m, k)));
    }
    lemma_pool_left_range(labor_keys(mid.firms), labor_demands(mid.firms), mid.labor_supply, mid.min_wage);
}

/// Goods clearing is rank-monotonic: a firm with strictly higher
/// usefulness is served earlier, the demand standing before it is no
/// larger, and when it can sell and the user pool covers both the demand
/// before it and its own servings, it sells everything it produced.
pub proof fn lemma_goods_rank_monotonic(m: MarketModel, a: int, b: int)
    requires
        counters_nonneg(m),
        0 <= a < m.firms.len(),
        0 <= b < m.firms.len(),
        m.firms[a].usefulness > m.firms[b].usefulness,
    ensures
        served_before(goods_keys(m.firms), a, b),
        demand_before(goods_keys(m.firms), goods_demands(m.firms), m.min_usefulness_per_user, a)
            <= demand_before(
            goods_keys(m.firms),
            goods_demands(m.firms),
            m.min_usefulness_per_user,
            b,
        ),
        m.firms[a].usefulness >= m.min_usefulness_per_user && demand_before(
            goods_keys(m.firms),
            goods_demands(m.firms),
            m.min_usefulness_per_user,
            a,
        ) + m.firms[a].servings <= m.users ==> goods_sold(m, a) == m.firms[a].servings,
{
    assert forall|j: int| 0 <= j < goods_demands(m.firms).len() implies #[trigger] goods_demands(
        m.firms,
    )[j] >= 0 by {
        assert(goods_demands(m.firms)[j] == m.firms[j].servings);
    }
    assert(goods_keys(m.firms)[a] == m.firms[a].usefulness);
    assert(goods_keys(m.firms)[b] == m.firms[b].usefulness);
    assert(goods_demands(m.firms)[a] == m.firms[a].servings);
    lemma_rank_priority(
        goods_keys(m.firms),
        goods_demands(m.firms),
        m.users,
        m.min_usefulness_per_user,
        a,
        b,
    );
}

/// The units sold by all firms together never exceed the user pool.
pub proof fn lemma_units_sold_within_users(m: MarketModel)
    requires
        counters_nonneg(m),
    ensures
        total_units_sold(m) <= m.users,
{
    assert forall|j: int| 0 <= j < goods_demands(m.firms).len() implies #[trigger] goods_demands(
        m.firms,
    )[j] >= 0 by {
        assert(goods_demands(m.firms)[j] == m.firms[j].servings);
    }
    lemma_alloc_sum_within_pool(
        goods_keys(m.firms),
        goods_demands(m.firms),
        m.users,
        m.min_usefulness_per_user,
    );
}

/// With one history entry the profit trend is exactly the funds change
/// against that entry.
pub proof fn lemma_trend_single_entry(current: int, prev: Seq<int>)
    requires
        prev.len() == 1,
    ensures
        profit_trend(current, prev) == current - prev[0],
{
}

/// Wage payment removes an insolvent firm: no surviving firm carries its
/// name, provided names are distinct.
pub proof fn lemma_bankruptcy_removes(firms: Seq<FirmModel>, i: int)
    requires
        distinct_names(firms),
        0 <= i < firms.len(),
        !solvent(firms[i]),
    ensures
        !has_firm_named(surviving(firms), firms[i].name),
{
    lemma_surviving_membership(firms);
    assert forall|j: int| 0 <= j < surviving(firms).len() implies #[trigger] surviving(
        firms,
    )[j].name != firms[i].name by {
        let k = choose|k: int|
            0 <= k < firms.len() && #[trigger] surviving(firms)[j] == debited(firms[k]) && solvent(
                firms[k],
            );
        assert(surviving(firms)[j].name == firms[k].name);
        assert(k != i);
    }
}

/// Bankruptcy is total and immediate: a firm that cannot cover its wage
/// bill when wages are paid is gone from the market the round resolution
/// returns.
pub proof fn lemma_bankruptcy_terminal(m: MarketModel, i: int)
    requires
        distinct_names(goods_stage(m).firms),
        0 <= i < goods_stage(m).firms.len(),
        !solvent(goods_stage(m).firms[i]),
    ensures
        !has_firm_named(round_resolution(m).firms, goods_stage(m).firms[i].name),
{
    let g = goods_stage(m);
    let nm = g.firms[i].name;
    lemma_bankruptcy_removes(g.firms, i);
    let p = pay_stage(g);
    lemma_stage_names(p);
    let mid = price_stage(p);
    lemma_stage_names(mid);
    assert forall|j: int| 0 <= j < round_resolution(m).firms.len() implies #[trigger]
        round_resolution(m).firms[j].name != nm by {
        assert(round_resolution(m).firms[j].name == mid.firms[j].name);
        assert(mid.firms[j].name == p.firms[j].name);
    }
}

/// A name absent from the market stays absent through a round resolution:
/// no stage ever adds a firm.
pub proof fn lemma_absent_stays_absent(m: MarketModel, nm: Seq<char>)
    requires
        !has_firm_named(m.firms, nm),
    ensures
        !has_firm_named(round_resolution(m).firms, nm),
{
    lemma_stage_names(m);
    let g = goods_stage(m);
    lemma_surviving_membership(g.firms);
    let p = pay_stage(g);
    assert forall|j: int| 0 <= j < p.firms.len() implies #[trigger] p.firms[j].name != nm by {
        let k = choose|k: int|
            0 <= k < g.firms.len() && #[trigger] p.firms[j] == debited(g.firms[k]) && solvent(
                g.firms[k],
            );
        assert(p.firms[j].name == g.firms[k].name);
        assert(g.firms[k].name == m.firms[k].name);
    }
    lemma_stage_names(p);
    let mid = price_stage(p);
    lemma_stage_names(mid);
    assert forall|j: int| 0 <= j < round_resolution(m).firms.len() implies #[trigger]
        round_resolution(m).firms[j].name != nm by {
        assert(round_resolution(m).firms[j].name == mid.firms[j].name);
        assert(mid.firms[j].name == p.firms[j].name);
    }
}

} // verus!
