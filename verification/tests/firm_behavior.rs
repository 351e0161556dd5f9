//! Firm-level behavior: decision application, profit trend, danger
//! signals, and strategy selection.

use market_sim::firm::{Firm, OwnershipKind};
use market_sim::market::new_market;
use market_sim::trend::calc_profit_trend;

fn bare_firm(name: &str) -> Firm {
    Firm {
        name: String::from(name),
        share_market_boost: 0,
        share_price: 0,
        employees: 0,
        number_to_hire: 0,
        wage_amount: 0,
        current_funds: 0,
        previous_funds: Vec::new(),
        profit_trend: 0,
        usefulness: 0,
        servings: 0,
        user_preference_fulfillment: 0,
        employee_preference_fulfillment: 0,
        employee_danger: 0,
        customer_danger: 0,
    }
}

#[test]
fn decision_application_derives_round_figures() {
    let mut firm = bare_firm("alpha");
    firm.current_funds = 1000;
    firm.employees = 30;
    let firm = firm.play_robo_round([50, 10, 60, 20, 40]);
    // wage = 1000 * 50 / 100 / 10; usefulness = 30 * 60 / 20; boost = 30 * 40.
    assert_eq!(firm.wage_amount, 50);
    assert_eq!(firm.number_to_hire, 10);
    assert_eq!(firm.usefulness, 90);
    assert_eq!(firm.servings, 20);
    assert_eq!(firm.share_market_boost, 1200);
    assert_eq!(firm.current_funds, 1000);
    assert_eq!(firm.employees, 30);
}

#[test]
fn decision_application_truncates_divisions() {
    let mut firm = bare_firm("alpha");
    firm.current_funds = 999;
    firm.employees = 7;
    let firm = firm.play_robo_round([33, 4, 55, 3, 45]);
    // wage = 999 * 33 / 100 / 4 = 32967 / 100 / 4 = 329 / 4 = 82.
    assert_eq!(firm.wage_amount, 82);
    // usefulness = 7 * 55 / 3 = 385 / 3 = 128.
    assert_eq!(firm.usefulness, 128);
}

#[test]
fn trend_with_one_entry_is_the_plain_difference() {
    assert_eq!(calc_profit_trend(120, vec![100]), 20);
    assert_eq!(calc_profit_trend(80, vec![100]), -20);
}

#[test]
fn trend_with_two_entries_averages_two_changes() {
    // (150 - 100 + (100 - 60)) / 2 = 45
    assert_eq!(calc_profit_trend(150, vec![100, 60]), 45);
    // (0 - 100 + (100 - 99)) / 2 = -99 / 2, truncated toward zero.
    assert_eq!(calc_profit_trend(0, vec![100, 99]), -49);
}

#[test]
fn trend_with_three_or_more_entries_averages_three_changes() {
    // (130 - 100 + (100 - 85) + (85 - 70)) / 3 = 60 / 3 = 20
    assert_eq!(calc_profit_trend(130, vec![100, 85, 70]), 20);
    // Older entries beyond the third change nothing.
    assert_eq!(calc_profit_trend(130, vec![100, 85, 70, 1, 2, 3]), 20);
    // (10 - 100 + (100 - 90) + (90 - 0)) / 3 = 10 / 3 = 3
    assert_eq!(calc_profit_trend(10, vec![100, 90, 0]), 3);
}

#[test]
fn established_firm_seed_matches_its_trend() {
    // The seeded history gives (1000-800 + (800-650) + (650-500)) / 3 = 166.
    assert_eq!(
        calc_profit_trend(1000, vec![800, 650, 500, 400, 320, 250, 200, 150, 100]),
        166
    );
}

#[test]
fn customer_danger_no_excess_branch_is_clamped() {
    let mut market = new_market(100, 8, 1000, 10);
    market = market.new_firm(String::from("alpha"), 0);
    market = market.new_firm(String::from("beta"), 0);
    market.firms[0].usefulness = 10;
    market.firms[0].servings = 10;
    market.firms[1].usefulness = 30;
    market.firms[1].servings = 10;
    market.users_left = 0;
    let mut weak = bare_firm("alpha");
    weak.usefulness = 10;
    weak.servings = 10;
    // Peer mean is 300, own value 100: no excess, peer signal 100; the
    // pool is fully consumed, scarcity 100; the blend stays at 100.
    assert_eq!(weak.check_customer_danger(market), 100);
}

#[test]
fn customer_danger_excess_branch_follows_the_formula() {
    let mut market = new_market(100, 8, 1000, 10);
    market = market.new_firm(String::from("alpha"), 0);
    market = market.new_firm(String::from("beta"), 0);
    market.firms[1].usefulness = 10;
    market.firms[1].servings = 10;
    market.users_left = 600;
    let mut strong = bare_firm("alpha");
    strong.usefulness = 20;
    strong.servings = 20;
    // own = 400, peer mean = 100: peer = 300/400 * 100 = 75; scarcity =
    // 400/1000 * 100 = 40; blend = (75 + 3 * 40) / 4 = 48.75, truncated.
    assert_eq!(strong.check_customer_danger(market), 48);
}

#[test]
fn employee_danger_blends_wage_excess_with_scarcity() {
    let mut market = new_market(50, 8, 1000, 10);
    market = market.new_firm(String::from("alpha"), 0);
    market = market.new_firm(String::from("beta"), 0);
    market = market.new_firm(String::from("gamma"), 0);
    market.firms[1].wage_amount = 10;
    market.firms[2].wage_amount = 20;
    market.workers_left = 10;
    let mut payer = bare_firm("alpha");
    payer.wage_amount = 30;
    // Peer mean = 15, own 30: peer = 15/30 * 100 = 50; scarcity = 40/50 *
    // 100 = 80; blend = (50 + 240) / 4 = 72.5, truncated.
    assert_eq!(payer.check_employee_danger(market), 72);
}

#[test]
fn employee_danger_at_or_below_mean_uses_scarcity_weighting() {
    let mut market = new_market(100, 8, 1000, 10);
    market = market.new_firm(String::from("alpha"), 0);
    market = market.new_firm(String::from("beta"), 0);
    market.firms[1].wage_amount = 40;
    market.workers_left = 100;
    let mut low = bare_firm("alpha");
    low.wage_amount = 5;
    // Below the mean: peer signal 100; nothing of the pool is consumed,
    // scarcity 0; blend = 100 / 4 = 25.
    assert_eq!(low.check_employee_danger(market), 25);
}

#[test]
fn strategies_differ_only_when_out_of_danger() {
    let mut calm = bare_firm("alpha");
    calm.employees = 12;
    calm.customer_danger = 10;
    calm.employee_danger = 10;
    assert_eq!(calm.decide_strategy(OwnershipKind::Founder), [75, 12, 100, 12, 0]);
    assert_eq!(calm.decide_strategy(OwnershipKind::Shareholder), [50, 12, 50, 12, 50]);
    assert_eq!(calm.decide_strategy(OwnershipKind::Stakeholder), [50, 12, 100, 12, 0]);
}

#[test]
fn strategies_answer_the_stronger_danger() {
    let mut firm = bare_firm("alpha");
    firm.employees = 4;
    firm.customer_danger = 80;
    firm.employee_danger = 30;
    // A customer threat: hold the wage budget, put everything into
    // usefulness, whatever the ownership.
    assert_eq!(firm.decide_strategy(OwnershipKind::Founder), [50, 4, 100, 4, 0]);
    assert_eq!(firm.decide_strategy(OwnershipKind::Shareholder), [50, 4, 100, 4, 0]);
    firm.customer_danger = 30;
    firm.employee_danger = 80;
    // An employee threat: spend the whole of the funds on wages.
    assert_eq!(firm.decide_strategy(OwnershipKind::Stakeholder), [100, 4, 100, 4, 0]);
}

#[test]
fn strategy_of_an_idle_firm_still_asks_for_a_worker_and_a_serving() {
    let firm = bare_firm("alpha");
    assert_eq!(firm.decide_strategy(OwnershipKind::Founder), [75, 1, 100, 1, 0]);
}
