use yacht_engine::rules::DiceRule;
use yacht_engine::state::{DicePut, GameState, PlacementError};

#[test]
fn bonus_granted_at_exactly_63000() {
    let mut gs = GameState::new();
    gs.rule_score[0] = Some(50000);
    gs.rule_score[1] = Some(13000);
    assert_eq!(gs.get_total_score(), 63000 + 35000);
}

#[test]
fn bonus_withheld_one_below_threshold() {
    let mut gs = GameState::new();
    gs.rule_score[0] = Some(50000);
    gs.rule_score[1] = Some(12999);
    assert_eq!(gs.get_total_score(), 62999);
}

#[test]
fn total_adds_sections_and_ledger() {
    let mut gs = GameState::new();
    gs.rule_score[0] = Some(2000);
    gs.rule_score[6] = Some(15000);
    gs.rule_score[11] = Some(50000);
    gs.bid_score = -300;
    assert_eq!(gs.get_total_score(), 2000 + 15000 + 50000 - 300);
}

#[test]
fn category_reuse_rejected_without_mutation() {
    let mut gs = GameState::new();
    gs.add_dice(&[1, 1, 3, 4, 5, 2, 2, 2, 6, 6]);
    let put = DicePut { rule: DiceRule::One, dice: [1, 1, 3, 4, 5] };
    assert!(gs.use_dice(&put).is_ok());
    let pool_before = gs.dice.clone();
    let scores_before = gs.rule_score.clone();
    let again = DicePut { rule: DiceRule::One, dice: [2, 2, 2, 6, 6] };
    assert_eq!(gs.use_dice(&again), Err(PlacementError::RuleAlreadyUsed));
    assert_eq!(gs.dice, pool_before);
    assert_eq!(gs.rule_score, scores_before);
}

#[test]
fn placement_removes_exactly_the_multiset() {
    let mut gs = GameState::new();
    gs.add_dice(&[2, 2, 3, 4, 5, 6, 6, 1, 1, 1]);
    let put = DicePut { rule: DiceRule::LargeStraight, dice: [2, 3, 4, 5, 6] };
    assert!(gs.use_dice(&put).is_ok());
    assert_eq!(gs.dice.len(), 5);
    // First occurrence of each listed die leaves, in order.
    assert_eq!(gs.dice, vec![2, 6, 1, 1, 1]);
    assert_eq!(gs.rule_score[DiceRule::LargeStraight.to_index()], Some(30000));
}

#[test]
fn absent_value_rejected_pool_untouched() {
    let mut gs = GameState::new();
    gs.add_dice(&[1, 2, 3, 4, 5]);
    let put = DicePut { rule: DiceRule::Six, dice: [6, 1, 2, 3, 4] };
    assert_eq!(gs.use_dice(&put), Err(PlacementError::InvalidDice));
    assert_eq!(gs.dice, vec![1, 2, 3, 4, 5]);
    assert_eq!(gs.rule_score[DiceRule::Six.to_index()], None);
}

#[test]
fn insufficient_multiplicity_rejected_pool_untouched() {
    let mut gs = GameState::new();
    gs.add_dice(&[1, 1, 2, 3, 4]);
    let put = DicePut { rule: DiceRule::One, dice: [1, 1, 1, 2, 3] };
    assert_eq!(gs.use_dice(&put), Err(PlacementError::InvalidDice));
    assert_eq!(gs.dice, vec![1, 1, 2, 3, 4]);
}

#[test]
fn successful_bid_pays_failed_bid_credits() {
    let mut gs = GameState::new();
    gs.bid(true, 500);
    assert_eq!(gs.bid_score, -500);
    gs.bid(false, 700);
    assert_eq!(gs.bid_score, 200);
}

#[test]
fn add_dice_appends_in_order() {
    let mut gs = GameState::new();
    gs.add_dice(&[3, 1, 4]);
    gs.add_dice(&[1, 5]);
    assert_eq!(gs.dice, vec![3, 1, 4, 1, 5]);
}
