use yacht_engine::game::Game;

#[test]
fn round_one_triple_pays_1001() {
    // Round 1, A = [6,6,6,2,1], B = [3,3,4,5,1]: the best duplicate across
    // the groups is a triple, so the amount is 1001; with empty pools the
    // group choice falls back to the larger sum, which is A.
    let mut game = Game::new();
    game.current_round = 1;
    let bid = game.calculate_bid(&[6, 6, 6, 2, 1], &[3, 3, 4, 5, 1], 0);
    assert_eq!(bid.group, 'A');
    assert_eq!(bid.amount, 1001);
}

#[test]
fn round_one_quad_pays_2001() {
    let mut game = Game::new();
    game.current_round = 1;
    let bid = game.calculate_bid(&[5, 5, 5, 5, 1], &[1, 2, 3, 4, 5], 0);
    assert_eq!(bid.amount, 2001);
}

#[test]
fn round_one_no_duplicates_pays_1() {
    let mut game = Game::new();
    game.current_round = 1;
    let bid = game.calculate_bid(&[1, 2, 3, 4, 5], &[2, 3, 4, 5, 6], 0);
    assert_eq!(bid.amount, 1);
}

#[test]
fn round_two_reacts_to_first_bid() {
    let mut game = Game::new();
    game.current_round = 2;
    game.opponent_bids[1] = 2;
    let bid = game.calculate_bid(&[1, 2, 3, 4, 5], &[2, 3, 4, 5, 6], 0);
    assert_eq!(bid.amount, 101);

    game.opponent_bids[1] = 1;
    let bid = game.calculate_bid(&[1, 2, 3, 4, 5], &[2, 3, 4, 5, 6], 0);
    assert_eq!(bid.amount, 0);
}

#[test]
fn later_rounds_draw_by_parity() {
    let mut game = Game::new();
    game.current_round = 3;
    game.opponent_bids[2] = 7; // odd: draw from {2, 3}
    for entropy in 0..8u64 {
        let bid = game.calculate_bid(&[1, 2, 3, 4, 5], &[2, 3, 4, 5, 6], entropy);
        assert!(bid.amount == 2 || bid.amount == 3);
    }
    assert_eq!(game.calculate_bid(&[1, 2, 3, 4, 5], &[2, 3, 4, 5, 6], 0).amount, 2);
    assert_eq!(game.calculate_bid(&[1, 2, 3, 4, 5], &[2, 3, 4, 5, 6], 1).amount, 3);

    game.opponent_bids[2] = 4; // even: draw from {0, 1}
    for entropy in 0..8u64 {
        let bid = game.calculate_bid(&[1, 2, 3, 4, 5], &[2, 3, 4, 5, 6], entropy);
        assert!(bid.amount == 0 || bid.amount == 1);
    }
    game.current_round = 9;
    for entropy in 0..8u64 {
        let bid = game.calculate_bid(&[1, 2, 3, 4, 5], &[2, 3, 4, 5, 6], entropy);
        assert!(bid.amount == 0 || bid.amount == 1);
    }
}

#[test]
fn denial_bid_is_5001_on_the_needed_group() {
    let mut game = Game::new();
    game.current_round = 5;
    game.opp_state.add_dice(&[6, 6, 6, 6, 2]);
    // Only group A carries a 6.
    let bid = game.calculate_bid(&[6, 1, 2, 3, 4], &[1, 2, 3, 4, 5], 0);
    assert_eq!(bid.group, 'A');
    assert_eq!(bid.amount, 5001);
    // Only group B carries a 6.
    let bid = game.calculate_bid(&[1, 2, 3, 4, 5], &[6, 1, 2, 3, 4], 0);
    assert_eq!(bid.group, 'B');
    assert_eq!(bid.amount, 5001);
}

#[test]
fn no_denial_when_both_or_neither_group_carries_the_face() {
    let mut game = Game::new();
    game.current_round = 5;
    game.opp_state.add_dice(&[6, 6, 6, 6, 2]);
    let bid = game.calculate_bid(&[6, 1, 2, 3, 4], &[6, 2, 3, 4, 5], 0);
    assert_ne!(bid.amount, 5001);
    let bid = game.calculate_bid(&[1, 1, 2, 3, 4], &[1, 2, 3, 4, 5], 0);
    assert_ne!(bid.amount, 5001);
}

#[test]
fn no_denial_once_opponent_completed_yacht() {
    let mut game = Game::new();
    game.current_round = 5;
    game.opp_state.add_dice(&[6, 6, 6, 6, 2]);
    game.opponent_yacht_completed = true;
    let bid = game.calculate_bid(&[6, 1, 2, 3, 4], &[1, 2, 3, 4, 5], 0);
    assert_ne!(bid.amount, 5001);
}

#[test]
fn should_block_yacht_needs_four_opponent_dice() {
    let mut game = Game::new();
    game.opp_state.add_dice(&[6, 6, 6]);
    assert!(game.should_block_yacht(&[6, 1, 2, 3, 4], &[1, 2, 3, 4, 5]).is_none());
}

#[test]
fn ordinary_amounts_stay_in_range() {
    // Every non-denial branch: round 1 with and without duplicates, round 2
    // both ways, later rounds with both parities and several entropy words.
    let mut game = Game::new();
    for round in 1..=12 {
        game.current_round = round;
        for entropy in [0u64, 1, 2, 12345678901234567] {
            let bid = game.calculate_bid(&[6, 6, 6, 2, 1], &[3, 3, 4, 5, 1], entropy);
            assert!(bid.amount >= 0 && bid.amount <= 100000);
            assert!(bid.group == 'A' || bid.group == 'B');
        }
    }
}

#[test]
fn group_follows_own_duplicates() {
    let mut game = Game::new();
    game.current_round = 4;
    game.my_state.add_dice(&[5, 5, 5, 1, 2]);
    // Group B carries more fives than group A.
    let bid = game.calculate_bid(&[5, 1, 2, 3, 4], &[5, 5, 2, 3, 4], 0);
    assert_eq!(bid.group, 'B');
}

#[test]
fn tied_groups_early_rounds_prefer_larger_sum() {
    let mut game = Game::new();
    game.current_round = 4;
    game.my_state.add_dice(&[5, 5, 5, 1, 2]);
    // Both groups carry one five; A sums higher.
    let bid = game.calculate_bid(&[5, 6, 6, 3, 4], &[5, 1, 2, 3, 4], 0);
    assert_eq!(bid.group, 'A');
}

#[test]
fn tied_groups_late_rounds_prefer_remaining_potential() {
    let mut game = Game::new();
    game.current_round = 9;
    game.my_state.add_dice(&[5, 5, 5, 1, 2]);
    // Both groups carry one five, so the duplicate counts tie; from round 9
    // the tie goes to the group with the higher best score over the unused
    // categories. Only LARGE_STRAIGHT is unused, and only group B forms one.
    for i in 0..12 {
        if i != 10 {
            game.my_state.rule_score[i] = Some(0);
        }
    }
    let bid = game.calculate_bid(&[5, 1, 1, 2, 2], &[5, 2, 3, 4, 6], 0);
    // A: no large straight (0); B: [2,3,4,5,6] present -> 30000.
    assert_eq!(bid.group, 'B');
}

#[test]
fn max_duplicate_count_over_a_group() {
    let game = Game::new();
    assert_eq!(game.get_max_duplicate_count(&[6, 6, 6, 2, 1]), 3);
    assert_eq!(game.get_max_duplicate_count(&[3, 3, 4, 5, 1]), 2);
    assert_eq!(game.get_max_duplicate_count(&[1, 2, 3, 4, 5]), 1);
    assert_eq!(game.get_max_duplicate_count(&[4, 4, 4, 4, 4]), 5);
}

#[test]
fn my_max_duplicate_number_prefers_low_face_on_ties() {
    let mut game = Game::new();
    assert!(game.get_my_max_duplicate_number().is_none());
    game.my_state.add_dice(&[4, 4, 2, 2, 6]);
    assert_eq!(game.get_my_max_duplicate_number(), Some((2, 2)));
}

#[test]
fn random_between_stays_in_range() {
    let game = Game::new();
    for entropy in 0..16u64 {
        let r = game.random_between(2, 3, entropy);
        assert!(r == 2 || r == 3);
        let r = game.random_between(0, 1, entropy);
        assert!(r == 0 || r == 1);
    }
    assert_eq!(game.random_between(0, 1, 6), 0);
    assert_eq!(game.random_between(0, 1, 7), 1);
}
