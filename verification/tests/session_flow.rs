use yacht_engine::game::Game;
use yacht_engine::rules::DiceRule;
use yacht_engine::state::{Bid, DicePut};

#[test]
fn twelve_rounds_balance_dice_in_and_out() {
    // A full well-formed session: each round delivers five dice to each side
    // and each side commits five. The own pool must hold exactly 5 dice
    // right before each placement and 0 right after, and over the match 60
    // dice enter and 60 leave.
    let mut game = Game::new();
    let mut added = 0usize;
    let mut removed = 0usize;
    for round in 0..12usize {
        game.current_round += 1;
        let face = (round % 6 + 1) as i32;
        let group_a = [face; 5];
        let group_b = [1, 2, 3, 4, 5];
        let my_bid = game.calculate_bid(&group_a, &group_b, round as u64);
        assert!(my_bid.amount == 5001 || (0..=100000).contains(&my_bid.amount));
        let before = game.my_state.dice.len();
        game.update_get(
            &group_a,
            &group_b,
            &my_bid,
            &Bid { group: 'B', amount: 0 },
            'A',
        );
        assert_eq!(game.my_state.dice.len(), before + 5);
        added += 5;
        // Place the five dice just obtained on the round's own category.
        assert_eq!(game.my_state.dice.len(), 5);
        let put = DicePut {
            rule: DiceRule::from_usize(round).unwrap(),
            dice: group_a,
        };
        assert!(game.update_put(&put).is_ok());
        assert_eq!(game.my_state.dice.len(), 0);
        removed += 5;
    }
    assert_eq!(added, 60);
    assert_eq!(removed, 60);
    assert_eq!(game.current_round, 12);
    // Every category of the own side is now set.
    assert!(game.my_state.rule_score.iter().all(|s| s.is_some()));
}

#[test]
fn auction_resolution_updates_both_ledgers() {
    let mut game = Game::new();
    game.current_round = 1;
    // My bid declared A and A was obtained: I pay. The opponent declared A
    // but got B: they are credited.
    game.update_get(
        &[6, 6, 6, 2, 1],
        &[3, 3, 4, 5, 1],
        &Bid { group: 'A', amount: 1001 },
        &Bid { group: 'A', amount: 400 },
        'A',
    );
    assert_eq!(game.my_state.bid_score, -1001);
    assert_eq!(game.opp_state.bid_score, 400);
    assert_eq!(game.my_state.dice, vec![6, 6, 6, 2, 1]);
    assert_eq!(game.opp_state.dice, vec![3, 3, 4, 5, 1]);
    assert_eq!(game.opponent_bids[1], 400);

    // Second round, the other way around.
    game.current_round = 2;
    game.update_get(
        &[1, 1, 2, 2, 3],
        &[4, 4, 5, 5, 6],
        &Bid { group: 'A', amount: 50 },
        &Bid { group: 'A', amount: 70 },
        'B',
    );
    assert_eq!(game.my_state.bid_score, -1001 + 50);
    assert_eq!(game.opp_state.bid_score, 400 - 70);
    assert_eq!(game.opponent_bids[2], 70);
}

#[test]
fn opponent_yacht_placement_sets_the_denial_flag() {
    let mut game = Game::new();
    game.opp_state.add_dice(&[6, 6, 6, 6, 6]);
    assert!(!game.opponent_yacht_completed);
    let put = DicePut { rule: DiceRule::Yacht, dice: [6, 6, 6, 6, 6] };
    assert!(game.update_set(&put).is_ok());
    assert!(game.opponent_yacht_completed);
    assert_eq!(game.opp_state.rule_score[11], Some(50000));
    assert_eq!(game.opp_state.dice.len(), 0);
}

#[test]
fn zero_scoring_opponent_yacht_leaves_the_flag_off() {
    let mut game = Game::new();
    game.opp_state.add_dice(&[6, 6, 6, 6, 5]);
    let put = DicePut { rule: DiceRule::Yacht, dice: [6, 6, 6, 6, 5] };
    assert!(game.update_set(&put).is_ok());
    assert!(!game.opponent_yacht_completed);
    assert_eq!(game.opp_state.rule_score[11], Some(0));
}

#[test]
fn failed_opponent_placement_changes_nothing() {
    let mut game = Game::new();
    game.opp_state.add_dice(&[1, 2, 3, 4, 5]);
    let put = DicePut { rule: DiceRule::Yacht, dice: [6, 6, 6, 6, 6] };
    assert!(game.update_set(&put).is_err());
    assert!(!game.opponent_yacht_completed);
    assert_eq!(game.opp_state.dice, vec![1, 2, 3, 4, 5]);
    assert_eq!(game.opp_state.rule_score[11], None);
}
