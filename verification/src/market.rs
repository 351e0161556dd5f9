//! The market: the two shared resource pools, the collection of firms, and
//! the round-resolution pipeline that clears goods, pays wages, recomputes
//! share prices, and clears labor.

use crate::clearing::{allocated, clear_allocations, int_seq, pool_left};
use crate::firm::{Firm, FirmModel};
use crate::trend::funds_seq;
use vstd::prelude::*;

verus! {

/// The mathematical model of the market: the firms in order, and every pool
/// and floor as an unbounded integer.
#[verifier::ext_equal]
pub ghost struct MarketModel {
    pub firms: Seq<FirmModel>,
    pub labor_supply: int,
    pub workers_left: int,
    pub min_wage: int,
    pub users: int,
    pub users_left: int,
    pub min_usefulness_per_user: int,
}

/// The shared market.  `workers_left` and `users_left` carry the remainders
/// of the most recent labor and goods clearing; each is reset to its full
/// pool when the corresponding stage runs.
pub struct Market {
    pub firms: Vec<Firm>,
    pub labor_supply: u32,
    pub workers_left: u32,
    pub min_wage: u32,
    pub users: u32,
    pub users_left: u32,
    pub min_usefulness_per_user: u32,
}

/// The view of a firm collection as a sequence of firm models.
pub open spec fn firms_view(firms: Seq<Firm>) -> Seq<FirmModel> {
    firms.map_values(|f: Firm| f@)
}

impl View for Market {
    type V = MarketModel;

    open spec fn view(&self) -> MarketModel {
        MarketModel {
            firms: firms_view(self.firms@),
            labor_supply: self.labor_supply as int,
            workers_left: self.workers_left as int,
            min_wage: self.min_wage as int,
            users: self.users as int,
            users_left: self.users_left as int,
            min_usefulness_per_user: self.min_usefulness_per_user as int,
        }
    }
}

/// The state of a firm created from scratch: the given name and starting
/// funds, no history, and every other counter at zero.
pub open spec fn fresh_firm(name: Seq<char>, starting_funds: int) -> FirmModel {
    FirmModel {
        name: name,
        share_market_boost: 0,
        share_price: 0,
        employees: 0,
        number_to_hire: 0,
        wage_amount: 0,
        current_funds: starting_funds,
        previous_funds: Seq::empty(),
        profit_trend: 0,
        usefulness: 0,
        servings: 0,
        user_preference_fulfillment: 0,
        employee_preference_fulfillment: 0,
        employee_danger: 0,
        customer_danger: 0,
    }
}

/// The state of an established firm: seeded funds, history, profit trend
/// and headcount, so that the bootstrap rounds of a fresh firm are skipped.
pub open spec fn established_firm(name: Seq<char>) -> FirmModel {
    FirmModel {
        name: name,
        share_market_boost: 0,
        share_price: 0,
        employees: 25,
        number_to_hire: 0,
        wage_amount: 0,
        current_funds: 1000,
        previous_funds: seq![800, 650, 500, 400, 320, 250, 200, 150, 100],
        profit_trend: 166,
        usefulness: 0,
        servings: 0,
        user_preference_fulfillment: 0,
        employee_preference_fulfillment: 0,
        employee_danger: 0,
        customer_danger: 0,
    }
}

/// The keys firms are ranked by in goods clearing: their usefulness.
pub open spec fn goods_keys(firms: Seq<FirmModel>) -> Seq<int> {
    firms.map_values(|f: FirmModel| f.usefulness)
}

/// The demands firms place on the user pool: their servings.
pub open spec fn goods_demands(firms: Seq<FirmModel>) -> Seq<int> {
    firms.map_values(|f: FirmModel| f.servings)
}

/// The units firm `i` sells in goods clearing: its servings if the users
/// still unserved when its rank comes cover them, the remaining users
/// otherwise, and nothing when its usefulness is below the market's floor.
pub open spec fn goods_sold(m: MarketModel, i: int) -> int {
    allocated(
        goods_keys(m.firms),
        goods_demands(m.firms),
        m.users,
        m.min_usefulness_per_user,
        i,
    )
}

/// A firm after goods clearing sold `sold` of its servings: the funds it
/// entered the stage with are prepended to its history, revenue of 10 per
/// unit sold is credited, and its user preference fulfillment is its
/// usefulness times the units sold.
pub open spec fn firm_after_goods(f: FirmModel, sold: int) -> FirmModel {
    FirmModel {
        previous_funds: f.previous_funds.insert(0, f.current_funds),
        current_funds: f.current_funds + 10 * sold,
        user_preference_fulfillment: f.usefulness * sold,
        ..f
    }
}

/// The market after goods clearing: every firm updated with its sales, and
/// `users_left` holding the users no firm served.
pub open spec fn goods_stage(m: MarketModel) -> MarketModel {
    MarketModel {
        firms: Seq::new(m.firms.len(), |i: int| firm_after_goods(m.firms[i], goods_sold(m, i))),
        users_left: pool_left(
            goods_keys(m.firms),
            goods_demands(m.firms),
            m.users,
            m.min_usefulness_per_user,
        ),
        ..m
    }
}

/// The wage bill a firm owes this round: its offered wage for each worker
/// it employed last round, since this round's hiring has not yet cleared.
pub open spec fn employee_pay(f: FirmModel) -> int {
    f.wage_amount * f.employees
}

/// Whether a firm can cover its wage bill.  A firm that cannot is removed
/// from the market permanently.
pub open spec fn solvent(f: FirmModel) -> bool {
    employee_pay(f) <= f.current_funds
}

/// A firm after paying its wage bill.
pub open spec fn debited(f: FirmModel) -> FirmModel {
    FirmModel { current_funds: f.current_funds - employee_pay(f), ..f }
}

/// The firms that survive wage payment, in order: each solvent firm with
/// its wage bill debited, and every insolvent firm removed.
pub open spec fn surviving(firms: Seq<FirmModel>) -> Seq<FirmModel>
    decreases firms.len(),
{
    if firms.len() == 0 {
        Seq::empty()
    } else {
        let pre = surviving(firms.drop_last());
        if solvent(firms.last()) {
            pre.push(debited(firms.last()))
        } else {
            pre
        }
    }
}

/// The market after wage payment: only the surviving firms remain.
pub open spec fn pay_stage(m: MarketModel) -> MarketModel {
    MarketModel { firms: surviving(m.firms), ..m }
}

/// A firm's share price: funds plus profit trend plus promotion boost, in
/// hundredths.  A negative total (a falling trend can outweigh the funds)
/// floors the price at zero, since a price below zero is meaningless.
pub open spec fn share_price_of(f: FirmModel) -> int {
    let total = f.current_funds + f.profit_trend + f.share_market_boost;
    if total <= 0 {
        0
    } else {
        total / 100
    }
}

/// The market after the share-price update: every firm repriced, nothing
/// else touched.  This stage has no failure mode.
pub open spec fn price_stage(m: MarketModel) -> MarketModel {
    MarketModel {
        firms: Seq::new(
            m.firms.len(),
            |i: int| FirmModel { share_price: share_price_of(m.firms[i]), ..m.firms[i] },
        ),
        ..m
    }
}

/// The keys firms are ranked by in labor clearing: their offered wage.
pub open spec fn labor_keys(firms: Seq<FirmModel>) -> Seq<int> {
    firms.map_values(|f: FirmModel| f.wage_amount)
}

/// The demands firms place on the labor pool: the workers they ask for.
pub open spec fn labor_demands(firms: Seq<FirmModel>) -> Seq<int> {
    firms.map_values(|f: FirmModel| f.number_to_hire)
}

/// The workers firm `i` hires in labor clearing: the workers it asked for
/// if the pool still covers them when its rank comes, the remaining
/// workers otherwise, and nobody when its wage is below the market's wage
/// floor.
pub open spec fn labor_hired(m: MarketModel, i: int) -> int {
    allocated(labor_keys(m.firms), labor_demands(m.firms), m.labor_supply, m.min_wage, i)
}

/// A firm after labor clearing hired `hired` workers: they are its whole
/// headcount for the coming round, and its employee preference fulfillment
/// is its offered wage times the workers hired.
pub open spec fn firm_after_labor(f: FirmModel, hired: int) -> FirmModel {
    FirmModel {
        employees: hired,
        employee_preference_fulfillment: f.wage_amount * hired,
        ..f
    }
}

/// The market after hiring but before danger signals: every firm holds its
/// new headcount, and `workers_left` holds the workers nobody hired.
pub open spec fn hired_market(m: MarketModel) -> MarketModel {
    MarketModel {
        firms: Seq::new(m.firms.len(), |i: int| firm_after_labor(m.firms[i], labor_hired(m, i))),
        workers_left: pool_left(
            labor_keys(m.firms),
            labor_demands(m.firms),
            m.labor_supply,
            m.min_wage,
        ),
        ..m
    }
}

/// A firm with its two danger signals recomputed against the post-clearing
/// market snapshot `m`.
pub open spec fn firm_with_danger(f: FirmModel, m: MarketModel) -> FirmModel {
    FirmModel {
        customer_danger: crate::danger::customer_danger_spec(
            m.firms,
            f.name,
            f.usefulness,
            f.servings,
            m.users,
            m.users_left,
        ),
        employee_danger: crate::danger::employee_danger_spec(
            m.firms,
            f.name,
            f.wage_amount,
            m.labor_supply,
            m.workers_left,
        ),
        ..f
    }
}

/// The market after labor clearing: hiring resolved, and every firm's
/// danger signals recomputed against the post-clearing snapshot.
pub open spec fn labor_stage(m: MarketModel) -> MarketModel {
    let hired = hired_market(m);
    MarketModel {
        firms: Seq::new(hired.firms.len(), |i: int| firm_with_danger(hired.firms[i], hired)),
        ..hired
    }
}

/// Whether no two firms share a name.  The name is the only identity a
/// firm has, so the market keeps names unique.
pub open spec fn distinct_names(firms: Seq<FirmModel>) -> bool {
    forall|i: int, j: int|
        0 <= i < j < firms.len() ==> #[trigger] firms[i].name != #[trigger] firms[j].name
}

/// The market as the whole round-resolution pipeline leaves it: goods
/// cleared, wages paid (insolvent firms removed), share prices recomputed,
/// labor cleared and danger signals refreshed.
pub open spec fn round_resolution(m: MarketModel) -> MarketModel {
    labor_stage(price_stage(pay_stage(goods_stage(m))))
}

/// The market between the share-price update and labor clearing.
pub open spec fn round_mid(m: MarketModel) -> MarketModel {
    price_stage(pay_stage(goods_stage(m)))
}

/// Whether every firm able to sell can absorb its largest possible revenue
/// and fulfillment without its counters overflowing.
pub open spec fn goods_revenue_fits(m: MarketModel) -> bool {
    forall|i: int|
        0 <= i < m.firms.len() && #[trigger] m.firms[i].usefulness >= m.min_usefulness_per_user
            ==> m.firms[i].current_funds + 10 * m.firms[i].servings <= u32::MAX
            && m.firms[i].usefulness * m.firms[i].servings <= u32::MAX
}

/// Whether every firm able to hire can absorb its largest possible
/// employee preference fulfillment without its counter overflowing.
pub open spec fn hiring_pay_fits(m: MarketModel) -> bool {
    forall|i: int|
        0 <= i < m.firms.len() && #[trigger] m.firms[i].wage_amount >= m.min_wage
            ==> m.firms[i].wage_amount * m.firms[i].number_to_hire <= u32::MAX
}

/// Whether the market can compute danger signals: either no firms at all,
/// or at least two firms with distinct names and non-empty pools to
/// measure scarcity against.
pub open spec fn danger_ready(m: MarketModel) -> bool {
    m.firms.len() == 0 || (m.firms.len() >= 2 && distinct_names(m.firms) && m.users > 0
        && m.labor_supply > 0)
}

/// Mapping a history to integers commutes with prepending an entry.
proof fn lemma_funds_seq_insert0(s: Seq<u32>, x: u32)
    ensures
        funds_seq(s.insert(0, x)) =~= funds_seq(s).insert(0, x as int),
{
    assert forall|j: int| 0 <= j < s.len() + 1 implies funds_seq(s.insert(0, x))[j] == funds_seq(
        s,
    ).insert(0, x as int)[j] by {
        if j > 0 {
            assert(s.insert(0, x)[j] == s[j - 1]);
            assert(funds_seq(s).insert(0, x as int)[j] == funds_seq(s)[j - 1]);
        }
    }
}

/// Builds a market with full pools, no firms, and the given labor supply,
/// wage floor, user pool, and usefulness floor.
pub fn new_market(labor_s: u32, minimum_w: u32, users_: u32, min_u: u32) -> (r: Market)
    ensures
        r@ == (MarketModel {
            firms: Seq::<FirmModel>::empty(),
            labor_supply: labor_s as int,
            workers_left: labor_s as int,
            min_wage: minimum_w as int,
            users: users_ as int,
            users_left: users_ as int,
            min_usefulness_per_user: min_u as int,
        }),
{
    let r = Market {
        firms: Vec::new(),
        labor_supply: labor_s,
        workers_left: labor_s,
        min_wage: minimum_w,
        users: users_,
        users_left: users_,
        min_usefulness_per_user: min_u,
    };
    proof {
        assert(r@ =~= (MarketModel {
            firms: Seq::<FirmModel>::empty(),
            labor_supply: labor_s as int,
            workers_left: labor_s as int,
            min_wage: minimum_w as int,
            users: users_ as int,
            users_left: users_ as int,
            min_usefulness_per_user: min_u as int,
        }));
        assert(firms_view(Seq::<Firm>::empty()) =~= Seq::<FirmModel>::empty());
    }
    r
}

impl Market {
    /// Adds a firm created from scratch with the given name and starting
    /// funds.  The caller keeps names unique; the market's identity notion
    /// is the name alone.
    pub fn new_firm(self, name_: String, starting_funds: u32) -> (r: Market)
        ensures
            r@ == (MarketModel {
                firms: self@.firms.push(fresh_firm(name_@, starting_funds as int)),
                ..self@
            }),
    {
        let ghost old_self = self;
        let new_firm = Firm {
            name: name_,
            share_market_boost: 0,
            share_price: 0,
            employees: 0,
            number_to_hire: 0,
            wage_amount: 0,
            current_funds: starting_funds,
            previous_funds: Vec::new(),
            profit_trend: 0,
            usefulness: 0,
            servings: 0,
            user_preference_fulfillment: 0,
            employee_preference_fulfillment: 0,
            employee_danger: 0,
            customer_danger: 0,
        };
        let ghost firm_model = new_firm@;
        let mut market = self;
        market.firms.push(new_firm);
        proof {
            assert(firm_model =~= fresh_firm(firm_model.name, starting_funds as int)) by {
                assert(funds_seq(Seq::<u32>::empty()) =~= Seq::<int>::empty());
            }
            assert(firms_view(old_self.firms@.push(new_firm)) =~= firms_view(
                old_self.firms@,
            ).push(firm_model));
            assert(market@ =~= (MarketModel {
                firms: old_self@.firms.push(firm_model),
                ..old_self@
            }));
        }
        market
    }

    /// Adds an established firm with the given name: seeded funds, history,
    /// profit trend and headcount.  The caller keeps names unique.
    pub fn new_established_firm(self, name_: String) -> (r: Market)
        ensures
            r@ == (MarketModel { firms: self@.firms.push(established_firm(name_@)), ..self@ }),
    {
        let ghost old_self = self;
        let mut history: Vec<u32> = Vec::new();
        history.push(800);
        history.push(650);
        history.push(500);
        history.push(400);
        history.push(320);
        history.push(250);
        history.push(200);
        history.push(150);
        history.push(100);
        let new_firm = Firm {
            name: name_,
            share_market_boost: 0,
            share_price: 0,
            employees: 25,
            number_to_hire: 0,
            wage_amount: 0,
            current_funds: 1000,
            previous_funds: history,
            profit_trend: 166,
            usefulness: 0,
            servings: 0,
            user_preference_fulfillment: 0,
            employee_preference_fulfillment: 0,
            employee_danger: 0,
            customer_danger: 0,
        };
        let ghost firm_model = new_firm@;
        let mut market = self;
        market.firms.push(new_firm);
        proof {
            assert(firm_model.previous_funds =~= seq![
                800int,
                650,
                500,
                400,
                320,
                250,
                200,
                150,
                100,
            ]);
            assert(firm_model =~= established_firm(firm_model.name));
            assert(firms_view(old_self.firms@.push(new_firm)) =~= firms_view(
                old_self.firms@,
            ).push(firm_model));
            assert(market@ =~= (MarketModel {
                firms: old_self@.firms.push(firm_model),
                ..old_self@
            }));
        }
        market
    }

    /// Clears the goods market: the user pool is reset to `users` and
    /// distributed over the firms in descending usefulness order (ties in
    /// input order).  A firm below the usefulness floor sells nothing; any
    /// other firm sells its full servings if the remaining users cover
    /// them and the remaining users otherwise, earning 10 per unit sold.
    /// Each firm's funds at stage entry are prepended to its history
    /// before its revenue is credited.  The revenue and fulfillment of a
    /// firm that can sell must fit its counters.
    pub fn sell_goods(self) -> (r: Market)
        requires
            goods_revenue_fits(self@),
        ensures
            r@ == goods_stage(self@),
    {
        let ghost m0 = self@;
        let ghost firms0 = self.firms@;
        let mut m = self;
        let n = m.firms.len();
        let mut keys: Vec<u32> = Vec::new();
        let mut demands: Vec<u32> = Vec::new();
        for i in 0..n
            invariant
                m.firms@ == firms0,
                n == firms0.len(),
                keys@.len() == i,
                demands@.len() == i,
                forall|t: int| 0 <= t < i ==> #[trigger] keys@[t] == firms0[t]@.usefulness,
                forall|t: int| 0 <= t < i ==> #[trigger] demands@[t] == firms0[t]@.servings,
        {
            let u = m.firms[i].usefulness;
            let s = m.firms[i].servings;
            keys.push(u);
            demands.push(s);
        }
        proof {
            assert(int_seq(keys@) =~= goods_keys(m0.firms));
            assert(int_seq(demands@) =~= goods_demands(m0.firms));
        }
        let (alloc, left) = clear_allocations(
            &keys,
            &demands,
            m.users,
            m.min_usefulness_per_user,
        );
        m.users_left = left;
        for i in 0..n
            invariant
                m.firms@.len() == n,
                n == firms0.len(),
                alloc@.len() == n,
                m0.firms == firms_view(firms0),
                m0.users == m.users as int,
                m0.min_usefulness_per_user == m.min_usefulness_per_user as int,
                forall|t: int|
                    0 <= t < n ==> #[trigger] alloc@[t] as int == goods_sold(m0, t),
                forall|i: int|
                    0 <= i < n && #[trigger] m0.firms[i].usefulness >= m0.min_usefulness_per_user
                        ==> m0.firms[i].current_funds + 10 * m0.firms[i].servings <= u32::MAX
                        && m0.firms[i].usefulness * m0.firms[i].servings <= u32::MAX,
                forall|t: int|
                    0 <= t < i ==> #[trigger] m.firms@[t]@ == firm_after_goods(
                        m0.firms[t],
                        goods_sold(m0, t),
                    ),
                forall|t: int| i <= t < n ==> #[trigger] m.firms@[t] == firms0[t],
                m.labor_supply == self.labor_supply,
                m.workers_left == self.workers_left,
                m.min_wage == self.min_wage,
                m.users == self.users,
                m.min_usefulness_per_user == self.min_usefulness_per_user,
                m.users_left as int == goods_stage(m0).users_left,
        {
            let ghost f0 = m0.firms[i as int];
            let ghost sold_i = goods_sold(m0, i as int);
            let sold = alloc[i];
            proof {
                if m.firms@[i as int].usefulness < m.min_usefulness_per_user {
                    assert(sold as int == 0);
                } else {
                    assert(sold_i <= goods_demands(m0.firms)[i as int]);
                    assert(f0.usefulness * sold_i <= f0.usefulness * f0.servings) by (
                    nonlinear_arith)
                        requires
                            0 <= sold_i <= f0.servings,
                            f0.usefulness >= 0,
                    ;
                }
            }
            let funds0 = m.firms[i].current_funds;
            m.firms[i].previous_funds.insert(0, funds0);
            let upf = m.firms[i].usefulness * sold;
            m.firms[i].user_preference_fulfillment = upf;
            m.firms[i].current_funds = funds0 + 10 * sold;
            proof {
                lemma_funds_seq_insert0(firms0[i as int].previous_funds@, funds0);
                assert(m.firms@[i as int]@ =~= firm_after_goods(f0, sold_i));
            }
        }
        proof {
            assert(firms_view(m.firms@) =~= goods_stage(m0).firms);
            assert(m@ =~= goods_stage(m0));
        }
        m
    }

    /// Pays wages: each firm owes its offered wage times last round's
    /// headcount.  A firm that can cover the bill pays it; a firm that
    /// cannot is insolvent and is removed from the market permanently, with
    /// no partial payment.
    pub fn pay_employees(self) -> (r: Market)
        ensures
            r@ == pay_stage(self@),
    {
        let ghost m0 = self@;
        let Market { firms, labor_supply, workers_left, min_wage, users, users_left, min_usefulness_per_user } =
            self;
        let ghost firms0 = firms@;
        let ghost mf0 = firms_view(firms0);
        let ghost n = firms0.len() as int;
        let mut firms = firms;
        let mut kept: Vec<Firm> = Vec::new();
        while firms.len() > 0
            invariant
                firms@ =~= firms0.subrange(n - firms@.len(), n),
                firms@.len() <= n,
                mf0 == firms_view(firms0),
                n == firms0.len(),
                firms_view(kept@) =~= surviving(mf0.take(n - firms@.len())),
            decreases firms@.len(),
        {
            let ghost k = n - firms@.len();
            let firm = firms.remove(0);
            proof {
                assert(firm == firms0[k]);
                assert(firms@ =~= firms0.subrange(k + 1, n));
                assert(mf0.take(k + 1).drop_last() =~= mf0.take(k));
                assert(mf0.take(k + 1).last() == firm@);
            }
            proof {
                let w = firm.wage_amount as int;
                let e = firm.employees as int;
                assert(w * e <= u32::MAX as int * u32::MAX as int) by (nonlinear_arith)
                    requires
                        0 <= w <= u32::MAX as int,
                        0 <= e <= u32::MAX as int,
                ;
            }
            let pay64: u64 = firm.wage_amount as u64 * firm.employees as u64;
            if pay64 <= firm.current_funds as u64 {
                let mut f = firm;
                f.current_funds = f.current_funds - (pay64 as u32);
                kept.push(f);
                proof {
                    assert(f@ =~= debited(mf0[k]));
                    assert(firms_view(kept@) =~= surviving(mf0.take(k + 1)));
                }
            } else {
                proof {
                    assert(!solvent(mf0[k]));
                    assert(firms_view(kept@) =~= surviving(mf0.take(k + 1)));
                }
            }
        }
        let r = Market {
            firms: kept,
            labor_supply,
            workers_left,
            min_wage,
            users,
            users_left,
            min_usefulness_per_user,
        };
        proof {
            assert(mf0.take(n) =~= mf0);
            assert(r@ =~= pay_stage(m0));
        }
        r
    }

    /// Recomputes every firm's share price from its funds, profit trend and
    /// promotion boost.  Pure recomputation: no firm is added, removed or
    /// otherwise changed.
    pub fn set_share_prices(self) -> (r: Market)
        ensures
            r@ == price_stage(self@),
    {
        let ghost m0 = self@;
        let ghost firms0 = self.firms@;
        let mut m = self;
        let n = m.firms.len();
        for i in 0..n
            invariant
                m.firms@.len() == n,
                n == firms0.len(),
                m0.firms == firms_view(firms0),
                forall|t: int|
                    0 <= t < i ==> #[trigger] m.firms@[t]@ == (FirmModel {
                        share_price: share_price_of(m0.firms[t]),
                        ..m0.firms[t]
                    }),
                forall|t: int| i <= t < n ==> #[trigger] m.firms@[t] == firms0[t],
                m.labor_supply == self.labor_supply,
                m.workers_left == self.workers_left,
                m.min_wage == self.min_wage,
                m.users == self.users,
                m.users_left == self.users_left,
                m.min_usefulness_per_user == self.min_usefulness_per_user,
        {
            let total: i64 = m.firms[i].current_funds as i64 + m.firms[i].profit_trend as i64
                + m.firms[i].share_market_boost as i64;
            let price: u32 = if total <= 0 {
                0
            } else {
                ((total as u64) / 100) as u32
            };
            m.firms[i].share_price = price;
            proof {
                assert(m.firms@[i as int]@ =~= (FirmModel {
                    share_price: share_price_of(m0.firms[i as int]),
                    ..m0.firms[i as int]
                }));
            }
        }
        proof {
            assert(firms_view(m.firms@) =~= price_stage(m0).firms);
            assert(m@ =~= price_stage(m0));
        }
        m
    }

    /// Clears the labor market: the worker pool is reset to `labor_supply`
    /// and distributed over the firms in descending wage order (ties in
    /// input order).  A firm offering less than the wage floor hires
    /// nobody; any other firm hires the workers it asked for if the
    /// remaining pool covers them and the remaining workers otherwise.
    /// Once hiring is resolved, every firm's danger signals are recomputed
    /// against the post-clearing snapshot.  Those signals compare each
    /// firm to the mean of its peers, so a market with any firms at all
    /// must hold at least two, with distinct names and non-empty pools.
    pub fn recruit_employees(self) -> (r: Market)
        requires
            danger_ready(self@),
            self@.firms.len() > 0 ==> self@.users_left <= self@.users,
            hiring_pay_fits(self@),
        ensures
            r@ == labor_stage(self@),
    {
        let ghost m0 = self@;
        let ghost firms0 = self.firms@;
        let mut m = self;
        let n = m.firms.len();
        let mut keys: Vec<u32> = Vec::new();
        let mut demands: Vec<u32> = Vec::new();
        for i in 0..n
            invariant
                m.firms@ == firms0,
                n == firms0.len(),
                keys@.len() == i,
                demands@.len() == i,
                forall|t: int| 0 <= t < i ==> #[trigger] keys@[t] == firms0[t]@.wage_amount,
                forall|t: int| 0 <= t < i ==> #[trigger] demands@[t] == firms0[t]@.number_to_hire,
        {
            let w = m.firms[i].wage_amount;
            let h = m.firms[i].number_to_hire;
            keys.push(w);
            demands.push(h);
        }
        proof {
            assert(int_seq(keys@) =~= labor_keys(m0.firms));
            assert(int_seq(demands@) =~= labor_demands(m0.firms));
        }
        let (alloc, left) = clear_allocations(&keys, &demands, m.labor_supply, m.min_wage);
        m.workers_left = left;
        for i in 0..n
            invariant
                m.firms@.len() == n,
                n == firms0.len(),
                alloc@.len() == n,
                m0.firms == firms_view(firms0),
                m0.labor_supply == m.labor_supply as int,
                m0.min_wage == m.min_wage as int,
                forall|t: int| 0 <= t < n ==> #[trigger] alloc@[t] as int == labor_hired(m0, t),
                forall|i: int|
                    0 <= i < n && #[trigger] m0.firms[i].wage_amount >= m0.min_wage ==>
                        m0.firms[i].wage_amount * m0.firms[i].number_to_hire <= u32::MAX,
                forall|t: int|
                    0 <= t < i ==> #[trigger] m.firms@[t]@ == firm_after_labor(
                        m0.firms[t],
                        labor_hired(m0, t),
                    ),
                forall|t: int| i <= t < n ==> #[trigger] m.firms@[t] == firms0[t],
                m.labor_supply == self.labor_supply,
                m.min_wage == self.min_wage,
                m.users == self.users,
                m.users_left == self.users_left,
                m.min_usefulness_per_user == self.min_usefulness_per_user,
                m.workers_left as int == hired_market(m0).workers_left,
        {
            let ghost f0 = m0.firms[i as int];
            let ghost hired_i = labor_hired(m0, i as int);
            let hired = alloc[i];
            proof {
                if f0.wage_amount < m0.min_wage {
                    assert(hired as int == 0);
                } else {
                    assert(hired_i <= labor_demands(m0.firms)[i as int]);
                    assert(f0.wage_amount * hired_i <= f0.wage_amount * f0.number_to_hire) by (
                    nonlinear_arith)
                        requires
                            0 <= hired_i <= f0.number_to_hire,
                            f0.wage_amount >= 0,
                    ;
                }
            }
            let epf = m.firms[i].wage_amount * hired;
            m.firms[i].employees = hired;
            m.firms[i].employee_preference_fulfillment = epf;
            proof {
                assert(m.firms@[i as int]@ =~= firm_after_labor(f0, hired_i));
            }
        }
        let ghost hired_m = hired_market(m0);
        proof {
            assert(firms_view(m.firms@) =~= hired_m.firms);
            assert(m@ =~= hired_m);
        }
        if n > 0 {
            let mut dangers: Vec<(u32, u32)> = Vec::new();
            for i in 0..n
                invariant
                    n >= 2,
                    m0 == self@,
                    n == m0.firms.len(),
                    m@ == hired_m,
                    hired_m == hired_market(m0),
                    m.firms@.len() == n,
                    hired_m.firms.len() == n,
                    distinct_names(m0.firms),
                    m0.users > 0,
                    m0.labor_supply > 0,
                    m0.users_left <= m0.users,
                    dangers@.len() == i,
                    forall|t: int|
                        0 <= t < i ==> #[trigger] dangers@[t].0 as int
                            == crate::danger::customer_danger_spec(
                            hired_m.firms,
                            hired_m.firms[t].name,
                            hired_m.firms[t].usefulness,
                            hired_m.firms[t].servings,
                            hired_m.users,
                            hired_m.users_left,
                        ),
                    forall|t: int|
                        0 <= t < i ==> #[trigger] dangers@[t].1 as int
                            == crate::danger::employee_danger_spec(
                            hired_m.firms,
                            hired_m.firms[t].name,
                            hired_m.firms[t].wage_amount,
                            hired_m.labor_supply,
                            hired_m.workers_left,
                        ),
            {
                proof {
                    let ghost w: int = if i == 0 {
                        1
                    } else {
                        0
                    };
                    assert(m0.firms[w].name != m0.firms[i as int].name);
                    assert(hired_m.firms[w] == firm_after_labor(m0.firms[w], labor_hired(m0, w)));
                    assert(hired_m.firms[i as int] == firm_after_labor(
                        m0.firms[i as int],
                        labor_hired(m0, i as int),
                    ));
                    assert(firms_view(m.firms@) == hired_m.firms);
                    assert(firms_view(m.firms@)[i as int] == m.firms@[i as int]@);
                    assert(firms_view(m.firms@)[w].name != m.firms@[i as int]@.name);
                    assert(m0.users_left == hired_m.users_left);
                    assert forall|j: int|
                        0 <= j < labor_demands(m0.firms).len() implies #[trigger] labor_demands(
                        m0.firms,
                    )[j] >= 0 by {
                        assert(m0.firms[j] == self.firms@[j]@);
                        assert(labor_demands(m0.firms)[j] == m0.firms[j].number_to_hire);
                    }
                    crate::clearing::lemma_demand_sum_nonneg(
                        labor_keys(m0.firms),
                        labor_demands(m0.firms),
                        m0.min_wage,
                        |j: int| true,
                        m0.firms.len() as int,
                    );
                    assert(m.workers_left <= m.labor_supply);
                }
                let cd = crate::danger::customer_danger_calc(
                    &m.firms,
                    &m.firms[i].name,
                    m.firms[i].usefulness,
                    m.firms[i].servings,
                    m.users,
                    m.users_left,
                );
                let ed = crate::danger::employee_danger_calc(
                    &m.firms,
                    &m.firms[i].name,
                    m.firms[i].wage_amount,
                    m.labor_supply,
                    m.workers_left,
                );
                dangers.push((cd, ed));
            }
            let ghost hired_firms = m.firms@;
            for i in 0..n
                invariant
                    m.firms@.len() == n,
                    dangers@.len() == n,
                    hired_firms.len() == n,
                    hired_m == hired_market(m0),
                    firms_view(hired_firms) == hired_m.firms,
                    forall|t: int|
                        0 <= t < n ==> #[trigger] dangers@[t].0 as int
                            == crate::danger::customer_danger_spec(
                            hired_m.firms,
                            hired_m.firms[t].name,
                            hired_m.firms[t].usefulness,
                            hired_m.firms[t].servings,
                            hired_m.users,
                            hired_m.users_left,
                        ),
                    forall|t: int|
                        0 <= t < n ==> #[trigger] dangers@[t].1 as int
                            == crate::danger::employee_danger_spec(
                            hired_m.firms,
                            hired_m.firms[t].name,
                            hired_m.firms[t].wage_amount,
                            hired_m.labor_supply,
                            hired_m.workers_left,
                        ),
                    forall|t: int|
                        0 <= t < i ==> #[trigger] m.firms@[t]@ == firm_with_danger(
                            hired_m.firms[t],
                            hired_m,
                        ),
                    forall|t: int| i <= t < n ==> #[trigger] m.firms@[t] == hired_firms[t],
                    m.labor_supply == self.labor_supply,
                    m.min_wage == self.min_wage,
                    m.users == self.users,
                    m.users_left == self.users_left,
                    m.min_usefulness_per_user == self.min_usefulness_per_user,
                    m.workers_left as int == hired_m.workers_left,
            {
                let cd = dangers[i].0;
                let ed = dangers[i].1;
                m.firms[i].customer_danger = cd;
                m.firms[i].employee_danger = ed;
                proof {
                    assert(m.firms@[i as int]@ =~= firm_with_danger(
                        hired_m.firms[i as int],
                        hired_m,
                    ));
                }
            }
            proof {
                assert(firms_view(m.firms@) =~= labor_stage(m0).firms);
                assert(m@ =~= labor_stage(m0));
            }
            m
        } else {
            proof {
                assert(labor_stage(m0).firms =~= hired_m.firms);
                assert(m@ =~= labor_stage(m0));
            }
            m
        }
    }

    /// Resolves one round: clears the goods market, pays wages (removing
    /// any firm that cannot cover its bill), recomputes share prices, and
    /// clears the labor market, refreshing every surviving firm's danger
    /// signals against the post-clearing snapshot.
    pub fn end_round(self) -> (r: Market)
        requires
            goods_revenue_fits(self@),
            hiring_pay_fits(round_mid(self@)),
            danger_ready(round_mid(self@)),
        ensures
            r@ == round_resolution(self@),
    {
        let ghost m0 = self@;
        let ghost firms0 = self.firms@;
        let market = self.sell_goods();
        let market = market.pay_employees();
        let market = market.set_share_prices();
        proof {
            assert(market@ == round_mid(m0));
            assert forall|j: int|
                0 <= j < goods_demands(m0.firms).len() implies #[trigger] goods_demands(
                m0.firms,
            )[j] >= 0 by {
                assert(m0.firms[j] == firms0[j]@);
                assert(goods_demands(m0.firms)[j] == m0.firms[j].servings);
            }
            crate::clearing::lemma_pool_left_range(
                goods_keys(m0.firms),
                goods_demands(m0.firms),
                m0.users,
                m0.min_usefulness_per_user,
            );
            assert(market@.users_left <= market@.users);
        }
        let market = market.recruit_employees();
        market
    }
}

} // verus!
