use yacht_engine::game::Game;
use yacht_engine::rules::DiceRule;

#[test]
fn picks_the_globally_best_category() {
    let mut game = Game::new();
    game.my_state.add_dice(&[6, 6, 6, 6, 6]);
    let put = game.calculate_put();
    assert_eq!(put.rule, DiceRule::Yacht);
    assert_eq!(put.dice, [6, 6, 6, 6, 6]);
}

#[test]
fn front_loads_a_triple_from_a_larger_pool() {
    let mut game = Game::new();
    game.my_state.add_dice(&[1, 4, 4, 2, 3, 4, 4, 5, 6, 1]);
    // The front-loaded candidate for face 4 is [4,4,4,4,1]: all four 4s
    // first, then the other pool entries in order, capped at five.
    let (dice, score) = game.find_best_dice_for_rule(DiceRule::FourOfAKind);
    assert_eq!(dice, [4, 4, 4, 4, 1]);
    assert_eq!(score, 17000);
    // Globally a straight template under LARGE_STRAIGHT wins; the
    // [1,2,3,4,5] template comes first in candidate order and this pool can
    // even supply it.
    let put = game.calculate_put();
    assert_eq!(put.rule, DiceRule::LargeStraight);
    assert_eq!(put.dice, [1, 2, 3, 4, 5]);
    assert!(game.update_put(&put).is_ok());
}

#[test]
fn ties_break_toward_the_lower_category() {
    let mut game = Game::new();
    game.my_state.add_dice(&[5, 5, 5, 5, 5]);
    for i in 0..12 {
        if i != 7 && i != 8 {
            game.my_state.rule_score[i] = Some(0);
        }
    }
    // [5,5,5,5,5] pays 25000 under FOUR_OF_A_KIND and FULL_HOUSE alike, the
    // only unused categories; the scan keeps the first maximum, the lower
    // ordinal FOUR_OF_A_KIND.
    let put = game.calculate_put();
    assert_eq!(put.rule, DiceRule::FourOfAKind);
    assert_eq!(put.dice, [5, 5, 5, 5, 5]);
}

#[test]
fn straight_template_proposed_even_when_pool_cannot_supply_it() {
    let mut game = Game::new();
    game.my_state.add_dice(&[2, 3, 4, 5, 5]);
    for i in 0..12 {
        if i != 10 {
            game.my_state.rule_score[i] = Some(0);
        }
    }
    // Only LARGE_STRAIGHT is unused. The pool's own five dice form no run,
    // but the [1,2,3,4,5] template scores 30000, so it is proposed even
    // though the pool holds no 1; the recording step is the authority on
    // whether the pool can supply it.
    let put = game.calculate_put();
    assert_eq!(put.rule, DiceRule::LargeStraight);
    assert_eq!(put.dice, [1, 2, 3, 4, 5]);
    assert!(game.update_put(&put).is_err());
}

#[test]
fn falls_back_to_lowest_unused_category_on_all_zero() {
    let mut game = Game::new();
    game.my_state.add_dice(&[1, 2, 3, 4, 5]);
    for i in 0..11 {
        game.my_state.rule_score[i] = Some(0);
    }
    // Only YACHT is unused and no candidate reaches a yacht: every score is
    // zero, so the fallback names YACHT with the all-zero dummy subset.
    let put = game.calculate_put();
    assert_eq!(put.rule, DiceRule::Yacht);
    assert_eq!(put.dice, [0, 0, 0, 0, 0]);
}

#[test]
fn empty_pool_falls_back_too() {
    let game = Game::new();
    let put = game.calculate_put();
    assert_eq!(put.rule, DiceRule::One);
    assert_eq!(put.dice, [0, 0, 0, 0, 0]);
}

#[test]
fn find_best_dice_scores_one_category() {
    let mut game = Game::new();
    game.my_state.add_dice(&[3, 3, 3, 3, 1]);
    let (dice, score) = game.find_best_dice_for_rule(DiceRule::FourOfAKind);
    assert_eq!(score, 13000);
    assert_eq!(dice, [3, 3, 3, 3, 1]);
    let (_, score) = game.find_best_dice_for_rule(DiceRule::Six);
    assert_eq!(score, 6000); // one 6 from the [2,3,4,5,6] template
}

#[test]
fn short_pool_yields_no_candidates() {
    let mut game = Game::new();
    game.my_state.add_dice(&[3, 3, 3]);
    let combos = game.generate_dice_combinations(&[3, 3, 3]);
    assert!(combos.is_empty());
    let (dice, score) = game.find_best_dice_for_rule(DiceRule::Three);
    assert_eq!(score, 0);
    assert_eq!(dice, [0, 0, 0, 0, 0]);
}

#[test]
fn candidate_list_layout() {
    let game = Game::new();
    // Five dice, no triple: first five plus the two templates.
    let combos = game.generate_dice_combinations(&[1, 2, 3, 4, 5]);
    assert_eq!(
        combos,
        vec![[1, 2, 3, 4, 5], [1, 2, 3, 4, 5], [2, 3, 4, 5, 6]]
    );
    // Seven dice with a triple of 4s: first five, last five, the
    // front-loaded 4s, then the templates.
    let combos = game.generate_dice_combinations(&[1, 4, 2, 4, 3, 4, 6]);
    assert_eq!(
        combos,
        vec![
            [1, 4, 2, 4, 3],
            [2, 4, 3, 4, 6],
            [4, 4, 4, 1, 2],
            [1, 2, 3, 4, 5],
            [2, 3, 4, 5, 6],
        ]
    );
}

#[test]
fn potential_score_over_given_rules() {
    let game = Game::new();
    let dice = [2, 2, 2, 5, 5];
    // FULL_HOUSE (ordinal 8) pays 16000 here, TWO (ordinal 1) pays 6000.
    assert_eq!(game.calculate_potential_score(&dice, &[1, 8]), 16000);
    assert_eq!(game.calculate_potential_score(&dice, &[1]), 6000);
    assert_eq!(game.calculate_potential_score(&dice, &[]), 0);
    // Out-of-range ordinals contribute nothing.
    assert_eq!(game.calculate_potential_score(&dice, &[99]), 0);
    assert_eq!(
        game.calculate_rule_potential_score(&dice, DiceRule::FullHouse),
        16000
    );
}
