//! Round-resolution scenarios over whole markets.

use market_sim::market::new_market;

#[test]
fn ample_users_both_firms_sell_fully() {
    let mut market = new_market(100, 8, 1000, 10);
    market = market.new_firm(String::from("alpha"), 0);
    market = market.new_firm(String::from("beta"), 0);
    market.firms[0].usefulness = 20;
    market.firms[0].servings = 50;
    market.firms[1].usefulness = 15;
    market.firms[1].servings = 60;
    let market = market.sell_goods();
    assert_eq!(market.firms[0].user_preference_fulfillment, 1000);
    assert_eq!(market.firms[1].user_preference_fulfillment, 900);
    assert_eq!(market.firms[0].current_funds, 500);
    assert_eq!(market.firms[1].current_funds, 600);
    assert_eq!(market.users_left, 1000 - 50 - 60);
}

#[test]
fn scarce_users_first_ranked_takes_remainder_lower_ranked_nothing() {
    let mut market = new_market(100, 8, 40, 10);
    market = market.new_firm(String::from("alpha"), 0);
    market = market.new_firm(String::from("beta"), 0);
    market.firms[0].usefulness = 20;
    market.firms[0].servings = 50;
    market.firms[1].usefulness = 15;
    market.firms[1].servings = 60;
    let market = market.sell_goods();
    assert_eq!(market.firms[0].user_preference_fulfillment, 20 * 40);
    assert_eq!(market.firms[0].current_funds, 400);
    assert_eq!(market.firms[1].user_preference_fulfillment, 0);
    assert_eq!(market.firms[1].current_funds, 0);
    assert_eq!(market.users_left, 0);
}

#[test]
fn ranking_is_by_usefulness_not_input_order() {
    let mut market = new_market(100, 8, 30, 1);
    market = market.new_firm(String::from("alpha"), 0);
    market = market.new_firm(String::from("beta"), 0);
    market.firms[0].usefulness = 5;
    market.firms[0].servings = 30;
    market.firms[1].usefulness = 9;
    market.firms[1].servings = 25;
    let market = market.sell_goods();
    assert_eq!(market.firms[1].user_preference_fulfillment, 9 * 25);
    assert_eq!(market.firms[0].user_preference_fulfillment, 5 * 5);
    assert_eq!(market.users_left, 0);
}

#[test]
fn usefulness_below_floor_sells_nothing() {
    let mut market = new_market(100, 8, 1000, 10);
    market = market.new_firm(String::from("alpha"), 7);
    market = market.new_firm(String::from("beta"), 0);
    market.firms[0].usefulness = 9;
    market.firms[0].servings = 50;
    market.firms[0].user_preference_fulfillment = 123;
    market.firms[1].usefulness = 10;
    market.firms[1].servings = 20;
    let market = market.sell_goods();
    assert_eq!(market.firms[0].user_preference_fulfillment, 0);
    assert_eq!(market.firms[0].current_funds, 7);
    assert_eq!(market.firms[1].user_preference_fulfillment, 200);
    assert_eq!(market.users_left, 980);
}

#[test]
fn goods_clearing_prepends_entry_funds_to_history() {
    let mut market = new_market(100, 8, 1000, 10);
    market = market.new_firm(String::from("alpha"), 55);
    market = market.new_firm(String::from("beta"), 1);
    market.firms[0].usefulness = 12;
    market.firms[0].servings = 3;
    market.firms[0].previous_funds = vec![9, 8];
    let market = market.sell_goods();
    assert_eq!(market.firms[0].previous_funds, vec![55, 9, 8]);
    assert_eq!(market.firms[0].current_funds, 85);
}

#[test]
fn insolvent_firm_is_removed_solvent_firm_pays() {
    let mut market = new_market(100, 8, 1000, 10);
    market = market.new_firm(String::from("poor"), 50);
    market = market.new_firm(String::from("rich"), 100);
    market.firms[0].wage_amount = 10;
    market.firms[0].employees = 6;
    market.firms[1].wage_amount = 10;
    market.firms[1].employees = 6;
    let market = market.pay_employees();
    assert_eq!(market.firms.len(), 1);
    assert_eq!(market.firms[0].name, "rich");
    assert_eq!(market.firms[0].current_funds, 40);
}

#[test]
fn bankrupt_firm_never_reappears_in_later_rounds() {
    let mut market = new_market(100, 8, 1000, 10);
    market = market.new_established_firm(String::from("doomed"));
    market = market.new_established_firm(String::from("steady"));
    market = market.new_established_firm(String::from("spare"));
    // The doomed firm owes far more in wages than it can ever earn back.
    market.firms[0].wage_amount = 2000;
    market.firms[0].usefulness = 0;
    for _ in 0..3 {
        market = market.end_round();
        assert!(market.firms.iter().all(|f| f.name != "doomed"));
    }
}

#[test]
fn share_prices_follow_funds_trend_and_boost() {
    let mut market = new_market(100, 8, 1000, 10);
    market = market.new_firm(String::from("alpha"), 950);
    market = market.new_firm(String::from("beta"), 100);
    market.firms[0].profit_trend = 30;
    market.firms[0].share_market_boost = 20;
    market.firms[1].profit_trend = -250;
    market.firms[1].share_market_boost = 0;
    let market = market.set_share_prices();
    assert_eq!(market.firms[0].share_price, 10);
    // A falling trend can push the total below zero; the price floors at 0.
    assert_eq!(market.firms[1].share_price, 0);
}

#[test]
fn labor_clearing_ranks_by_wage_and_respects_the_floor() {
    let mut market = new_market(10, 8, 1000, 10);
    market = market.new_firm(String::from("alpha"), 0);
    market = market.new_firm(String::from("beta"), 0);
    market = market.new_firm(String::from("gamma"), 0);
    market.firms[0].wage_amount = 9;
    market.firms[0].number_to_hire = 6;
    market.firms[1].wage_amount = 12;
    market.firms[1].number_to_hire = 6;
    market.firms[2].wage_amount = 7;
    market.firms[2].number_to_hire = 6;
    let market = market.recruit_employees();
    // beta offers most and hires fully; alpha gets the remaining workers;
    // gamma offers below the wage floor and hires nobody.
    assert_eq!(market.firms[1].employees, 6);
    assert_eq!(market.firms[1].employee_preference_fulfillment, 72);
    assert_eq!(market.firms[0].employees, 4);
    assert_eq!(market.firms[0].employee_preference_fulfillment, 36);
    assert_eq!(market.firms[2].employees, 0);
    assert_eq!(market.firms[2].employee_preference_fulfillment, 0);
    assert_eq!(market.workers_left, 0);
}

#[test]
fn equal_usefulness_firms_are_served_in_input_order() {
    let mut market = new_market(100, 8, 30, 1);
    market = market.new_firm(String::from("alpha"), 0);
    market = market.new_firm(String::from("beta"), 0);
    market.firms[0].usefulness = 5;
    market.firms[0].servings = 20;
    market.firms[1].usefulness = 5;
    market.firms[1].servings = 20;
    let market = market.sell_goods();
    // The tie breaks toward the earlier firm: it sells fully, the later
    // firm gets only the remainder.
    assert_eq!(market.firms[0].user_preference_fulfillment, 100);
    assert_eq!(market.firms[1].user_preference_fulfillment, 50);
    assert_eq!(market.users_left, 0);
}

#[test]
fn a_round_over_an_empty_market_resets_the_pools() {
    let market = new_market(70, 8, 900, 10);
    let market = market.end_round();
    assert_eq!(market.firms.len(), 0);
    assert_eq!(market.users_left, 900);
    assert_eq!(market.workers_left, 70);
    assert_eq!(market.users, 900);
    assert_eq!(market.labor_supply, 70);
}

#[test]
fn pools_stay_within_capacity_over_several_rounds() {
    let mut market = new_market(40, 8, 60, 10);
    market = market.new_established_firm(String::from("one"));
    market = market.new_established_firm(String::from("two"));
    let decision = [50, 30, 100, 40, 0];
    for _ in 0..3 {
        let mut firms = Vec::new();
        while let Some(firm) = market.firms.pop() {
            firms.push(firm.play_robo_round(decision));
        }
        while let Some(firm) = firms.pop() {
            market.firms.push(firm);
        }
        market = market.end_round();
        assert!(market.users_left <= market.users);
        assert!(market.workers_left <= market.labor_supply);
    }
}

#[test]
fn full_round_on_established_firms_matches_hand_computation() {
    let mut market = new_market(1000, 8, 10000, 10);
    market = market.new_established_firm(String::from("one"));
    market = market.new_established_firm(String::from("two"));
    // Decisions as a caller would derive them: both firms put half their
    // funds toward wages for 25 workers, all wages toward usefulness.
    let decision = [50, 25, 100, 25, 0];
    let mut firms = Vec::new();
    while let Some(firm) = market.firms.pop() {
        firms.push(firm.play_robo_round(decision));
    }
    while let Some(firm) = firms.pop() {
        market.firms.push(firm);
    }
    // wage = 1000 * 50 / 100 / 25 = 20; usefulness = 25 * 100 / 25 = 100.
    assert_eq!(market.firms[0].wage_amount, 20);
    assert_eq!(market.firms[0].usefulness, 100);
    let market = market.end_round();
    // Goods: both sell 25 units for 250; history gains the entry funds.
    // Wages: both pay 20 * 25 = 500 from 1250.
    // Labor: both hire the 25 they asked for.
    assert_eq!(market.firms.len(), 2);
    assert_eq!(market.firms[0].current_funds, 750);
    assert_eq!(market.firms[0].previous_funds[0], 1000);
    assert_eq!(market.firms[0].employees, 25);
    assert_eq!(market.users_left, 10000 - 50);
    assert_eq!(market.workers_left, 1000 - 50);
    // Danger: equal peers leave both at the no-excess branch; scarcity is
    // 50/10000 of users and 50/1000 of workers.
    // customer = (100 * 10000 + 300 * 50) / (4 * 10000) = 25
    // employee = (100 * 1000 + 300 * 50) / (4 * 1000) = 28
    assert_eq!(market.firms[0].customer_danger, 25);
    assert_eq!(market.firms[0].employee_danger, 28);
    assert_eq!(market.firms[1].customer_danger, 25);
    assert_eq!(market.firms[1].employee_danger, 28);
}
