//! A firm's financial and operational state, and the application of one
//! round's decision record to it.
//!
//! A decision record is five numbers: the percentage of funds to spend on
//! wages, the number of workers to hire, the share of wages put toward
//! usefulness, the number of servings to produce, and the share of wages put
//! toward share-price promotion.  The two wage shares must sum to 100.

use crate::market::Market;
use vstd::prelude::*;

verus! {

/// The ownership structure a firm's decision strategy answers to.
pub enum OwnershipKind {
    /// Founder- or employee-owned: wages first.
    Founder,
    /// Shareholder-owned: the share price first.
    Shareholder,
    /// Stakeholder-owned: usefulness first.
    Stakeholder,
}

/// The mathematical model of a firm: every counter as an unbounded integer,
/// the name as a sequence of characters, and the funds history (most recent
/// first) as a sequence of integers.
#[verifier::ext_equal]
pub ghost struct FirmModel {
    pub name: Seq<char>,
    pub share_market_boost: int,
    pub share_price: int,
    pub employees: int,
    pub number_to_hire: int,
    pub wage_amount: int,
    pub current_funds: int,
    pub previous_funds: Seq<int>,
    pub profit_trend: int,
    pub usefulness: int,
    pub servings: int,
    pub user_preference_fulfillment: int,
    pub employee_preference_fulfillment: int,
    pub employee_danger: int,
    pub customer_danger: int,
}

/// One competing firm.  The name is the firm's identity: the market never
/// holds two firms of the same name.  Every other field is overwritten by
/// the round-resolution pipeline.
pub struct Firm {
    pub name: String,
    pub share_market_boost: u32,
    pub share_price: u32,
    pub employees: u32,
    pub number_to_hire: u32,
    pub wage_amount: u32,
    pub current_funds: u32,
    pub previous_funds: Vec<u32>,
    pub profit_trend: i32,
    pub usefulness: u32,
    pub servings: u32,
    pub user_preference_fulfillment: u32,
    pub employee_preference_fulfillment: u32,
    pub employee_danger: u32,
    pub customer_danger: u32,
}

impl View for Firm {
    type V = FirmModel;

    open spec fn view(&self) -> FirmModel {
        FirmModel {
            name: self.name@,
            share_market_boost: self.share_market_boost as int,
            share_price: self.share_price as int,
            employees: self.employees as int,
            number_to_hire: self.number_to_hire as int,
            wage_amount: self.wage_amount as int,
            current_funds: self.current_funds as int,
            previous_funds: crate::trend::funds_seq(self.previous_funds@),
            profit_trend: self.profit_trend as int,
            usefulness: self.usefulness as int,
            servings: self.servings as int,
            user_preference_fulfillment: self.user_preference_fulfillment as int,
            employee_preference_fulfillment: self.employee_preference_fulfillment as int,
            employee_danger: self.employee_danger as int,
            customer_danger: self.customer_danger as int,
        }
    }
}

/// Whether a decision record `[funds_to_wage_pct, hire_count,
/// usefulness_wage_share, servings, promotion_wage_share]` is well formed:
/// at least one serving, at least one worker asked for, the wage percentage
/// within 0..=100, and the two wage shares summing to 100.  A violation is a
/// fatal input-validation failure of the caller, not a recoverable error.
pub open spec fn valid_decision(d: Seq<int>) -> bool {
    &&& d.len() == 5
    &&& d[3] > 0
    &&& 0 <= d[0] <= 100
    &&& d[1] > 0
    &&& d[2] + d[4] == 100
    &&& d[2] >= 0
    &&& d[4] >= 0
}

/// The decision record as a sequence of integers.
pub open spec fn decision_seq(inputs: [u32; 5]) -> Seq<int> {
    Seq::new(5, |i: int| inputs[i] as int)
}

/// The firm after a decision is applied: the offered wage is the chosen
/// share of current funds split over the workers asked for, the usefulness
/// is last round's headcount times the usefulness wage share per serving,
/// and the promotion boost is last round's headcount times the promotion
/// wage share.  Divisions truncate.
pub open spec fn apply_decision(f: FirmModel, d: Seq<int>) -> FirmModel
    recommends
        valid_decision(d),
{
    FirmModel {
        wage_amount: f.current_funds * d[0] / 100 / d[1],
        number_to_hire: d[1],
        usefulness: f.employees * d[2] / d[3],
        servings: d[3],
        share_market_boost: f.employees * d[4],
        ..f
    }
}

/// The danger level at or above which a firm stops pursuing its owners'
/// preferred goal and answers the threat instead.
pub open spec fn spec_danger_threshold() -> int {
    50
}

/// How many workers a firm asks for, and how many servings it produces,
/// when following a strategy: last round's headcount, or one when it had
/// no employees at all (a decision must ask for at least one worker and
/// produce at least one serving).
pub open spec fn strategy_scale(f: FirmModel) -> int {
    if f.employees > 0 {
        f.employees
    } else {
        1
    }
}

/// The decision a firm's strategy produces, given its danger signals.
///
/// In danger (either signal at the threshold or above), the firm answers
/// the stronger threat whatever its ownership: a customer threat puts the
/// whole wage split into usefulness at a moderate wage budget, an employee
/// threat raises the wage budget to the whole of the funds.  Out of
/// danger, a founder-owned firm favors wages, a shareholder-owned firm
/// splits the wages between usefulness and share-price promotion, and a
/// stakeholder-owned firm puts the whole split into usefulness.
pub open spec fn decide_strategy_spec(f: FirmModel, firm_type: OwnershipKind) -> Seq<int> {
    let scale = strategy_scale(f);
    if f.customer_danger >= spec_danger_threshold() || f.employee_danger
        >= spec_danger_threshold() {
        if f.customer_danger >= f.employee_danger {
            seq![50, scale, 100, scale, 0]
        } else {
            seq![100, scale, 100, scale, 0]
        }
    } else {
        match firm_type {
            OwnershipKind::Founder => seq![75, scale, 100, scale, 0],
            OwnershipKind::Shareholder => seq![50, scale, 50, scale, 50],
            OwnershipKind::Stakeholder => seq![50, scale, 100, scale, 0],
        }
    }
}

impl Firm {
    /// Picks this round's decision record from the firm's danger signals
    /// and its ownership structure.  The record produced is always a valid
    /// decision.
    pub fn decide_strategy(&self, firm_type: OwnershipKind) -> (r: [u32; 5])
        ensures
            decision_seq(r) == decide_strategy_spec(self@, firm_type),
            valid_decision(decision_seq(r)),
    {
        let scale: u32 = if self.employees > 0 {
            self.employees
        } else {
            1
        };
        let r: [u32; 5] = if self.customer_danger >= 50 || self.employee_danger >= 50 {
            if self.customer_danger >= self.employee_danger {
                [50, scale, 100, scale, 0]
            } else {
                [100, scale, 100, scale, 0]
            }
        } else {
            match firm_type {
                OwnershipKind::Founder => [75, scale, 100, scale, 0],
                OwnershipKind::Shareholder => [50, scale, 50, scale, 50],
                OwnershipKind::Stakeholder => [50, scale, 100, scale, 0],
            }
        };
        proof {
            assert(decision_seq(r) =~= decide_strategy_spec(self@, firm_type));
        }
        r
    }

    /// Reports this firm's customer danger against a market snapshot: how
    /// close its usefulness output stands to its peers' mean, blended with
    /// how much of the user pool is already consumed.  The snapshot must
    /// hold a firm of another name and a non-empty user pool.
    pub fn check_customer_danger(&mut self, market: Market) -> (r: u32)
        requires
            market@.users > 0,
            market@.users_left <= market@.users,
            exists|j: int|
                0 <= j < market@.firms.len() && #[trigger] market@.firms[j].name
                    != old(self)@.name,
        ensures
            r as int == crate::danger::customer_danger_spec(
                market@.firms,
                old(self)@.name,
                old(self)@.usefulness,
                old(self)@.servings,
                market@.users,
                market@.users_left,
            ),
            0 <= r <= 100,
            *final(self) == *old(self),
    {
        crate::danger::customer_danger_calc(
            &market.firms,
            &self.name,
            self.usefulness,
            self.servings,
            market.users,
            market.users_left,
        )
    }

    /// Reports this firm's employee danger against a market snapshot: how
    /// close its offered wage stands to its peers' mean, blended with how
    /// much of the labor pool is already hired away.  The snapshot must
    /// hold a firm of another name and a non-empty labor pool.
    pub fn check_employee_danger(&mut self, market: Market) -> (r: u32)
        requires
            market@.labor_supply > 0,
            market@.workers_left <= market@.labor_supply,
            exists|j: int|
                0 <= j < market@.firms.len() && #[trigger] market@.firms[j].name
                    != old(self)@.name,
        ensures
            r as int == crate::danger::employee_danger_spec(
                market@.firms,
                old(self)@.name,
                old(self)@.wage_amount,
                market@.labor_supply,
                market@.workers_left,
            ),
            0 <= r <= 100,
            *final(self) == *old(self),
    {
        crate::danger::employee_danger_calc(
            &market.firms,
            &self.name,
            self.wage_amount,
            market.labor_supply,
            market.workers_left,
        )
    }

    /// Applies one round's decision record to the firm's state, deriving
    /// this round's wage offer, production figures, and promotion boost.
    /// The intermediate products must fit the firm's counters; callers
    /// validate the record (and fail hard on a malformed one) before
    /// calling.
    pub fn play_robo_round(self, inputs: [u32; 5]) -> (r: Firm)
        requires
            valid_decision(decision_seq(inputs)),
            self.current_funds * inputs[0] <= u32::MAX,
            self.employees * inputs[2] <= u32::MAX,
            self.employees * inputs[4] <= u32::MAX,
        ensures
            r@ == apply_decision(self@, decision_seq(inputs)),
    {
        let mut firm = self;
        firm.wage_amount = firm.current_funds * inputs[0] / 100 / inputs[1];
        firm.number_to_hire = inputs[1];
        firm.usefulness = firm.employees * inputs[2] / inputs[3];
        firm.servings = inputs[3];
        firm.share_market_boost = firm.employees * inputs[4];
        proof {
            assert(firm@ =~= apply_decision(self@, decision_seq(inputs)));
        }
        firm
    }
}

} // verus!
