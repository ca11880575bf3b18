//! The twelve scoring categories and the deterministic scoring evaluator.

use vstd::prelude::*;
use crate::dice::{all_dice_valid, count_in, count_val, lemma_count_le_len, sum_dice, sum_of};

verus! {

/// The twelve scoring categories, in the fixed order used for tie-breaking.
#[derive(Debug, Clone, Copy, PartialEq, Eq, Structural)]
pub enum DiceRule {
    One,
    Two,
    Three,
    Four,
    Five,
    Six,
    Choice,
    FourOfAKind,
    FullHouse,
    SmallStraight,
    LargeStraight,
    Yacht,
}

/// Ordinal of a category in the fixed order.
pub open spec fn rule_index(r: DiceRule) -> int {
    match r {
        DiceRule::One => 0,
        DiceRule::Two => 1,
        DiceRule::Three => 2,
        DiceRule::Four => 3,
        DiceRule::Five => 4,
        DiceRule::Six => 5,
        DiceRule::Choice => 6,
        DiceRule::FourOfAKind => 7,
        DiceRule::FullHouse => 8,
        DiceRule::SmallStraight => 9,
        DiceRule::LargeStraight => 10,
        DiceRule::Yacht => 11,
    }
}

/// Category at ordinal `i` of the fixed order, for `0 <= i < 12`.
pub open spec fn rule_of_index(i: int) -> DiceRule {
    if i == 0 {
        DiceRule::One
    } else if i == 1 {
        DiceRule::Two
    } else if i == 2 {
        DiceRule::Three
    } else if i == 3 {
        DiceRule::Four
    } else if i == 4 {
        DiceRule::Five
    } else if i == 5 {
        DiceRule::Six
    } else if i == 6 {
        DiceRule::Choice
    } else if i == 7 {
        DiceRule::FourOfAKind
    } else if i == 8 {
        DiceRule::FullHouse
    } else if i == 9 {
        DiceRule::SmallStraight
    } else if i == 10 {
        DiceRule::LargeStraight
    } else {
        DiceRule::Yacht
    }
}

/// Some face value occurs exactly `c` times.
pub open spec fn has_exact_count(dice: Seq<i32>, c: nat) -> bool {
    exists|v: i32| 1 <= v <= 6 && count_val(dice, v) == c
}

/// Some face value occurs at least `c` times.
pub open spec fn has_at_least_count(dice: Seq<i32>, c: nat) -> bool {
    exists|v: i32| 1 <= v <= 6 && count_val(dice, v) >= c
}

/// The face `v` occurs at least once.
pub open spec fn face_present(dice: Seq<i32>, v: i32) -> bool {
    count_val(dice, v) > 0
}

pub open spec fn is_four_of_a_kind(dice: Seq<i32>) -> bool {
    has_at_least_count(dice, 4)
}

/// A pair-satisfying face (count exactly 2 or 5) and a triple-satisfying face
/// (count exactly 3 or 5) both exist; five of a kind satisfies both at once.
pub open spec fn is_full_house(dice: Seq<i32>) -> bool {
    (has_exact_count(dice, 2) || has_exact_count(dice, 5)) && (has_exact_count(dice, 3)
        || has_exact_count(dice, 5))
}

pub open spec fn is_small_straight(dice: Seq<i32>) -> bool {
    ||| face_present(dice, 1) && face_present(dice, 2) && face_present(dice, 3) && face_present(
        dice,
        4,
    )
    ||| face_present(dice, 2) && face_present(dice, 3) && face_present(dice, 4) && face_present(
        dice,
        5,
    )
    ||| face_present(dice, 3) && face_present(dice, 4) && face_present(dice, 5) && face_present(
        dice,
        6,
    )
}

pub open spec fn is_large_straight(dice: Seq<i32>) -> bool {
    ||| face_present(dice, 1) && face_present(dice, 2) && face_present(dice, 3) && face_present(
        dice,
        4,
    ) && face_present(dice, 5)
    ||| face_present(dice, 2) && face_present(dice, 3) && face_present(dice, 4) && face_present(
        dice,
        5,
    ) && face_present(dice, 6)
}

pub open spec fn is_yacht(dice: Seq<i32>) -> bool {
    has_exact_count(dice, 5)
}

/// Score of five dice under a category, in thousandths of a point as the
/// protocol counts them: top-section categories pay the face value times its
/// count times 1000, the combination categories pay as documented.
pub open spec fn spec_score(rule: DiceRule, dice: Seq<i32>) -> int {
    match rule {
        DiceRule::One => count_val(dice, 1) * 1000 as int,
        DiceRule::Two => count_val(dice, 2) * 2000 as int,
        DiceRule::Three => count_val(dice, 3) * 3000 as int,
        DiceRule::Four => count_val(dice, 4) * 4000 as int,
        DiceRule::Five => count_val(dice, 5) * 5000 as int,
        DiceRule::Six => count_val(dice, 6) * 6000 as int,
        DiceRule::Choice => sum_of(dice) * 1000,
        DiceRule::FourOfAKind => if is_four_of_a_kind(dice) {
            sum_of(dice) * 1000
        } else {
            0
        },
        DiceRule::FullHouse => if is_full_house(dice) {
            sum_of(dice) * 1000
        } else {
            0
        },
        DiceRule::SmallStraight => if is_small_straight(dice) {
            15000
        } else {
            0
        },
        DiceRule::LargeStraight => if is_large_straight(dice) {
            30000
        } else {
            0
        },
        DiceRule::Yacht => if is_yacht(dice) {
            50000
        } else {
            0
        },
    }
}

/// Every category scores five valid dice somewhere in [0, 50000].
pub proof fn lemma_score_bounds(rule: DiceRule, dice: Seq<i32>)
    requires
        dice.len() == 5,
        all_dice_valid(dice),
    ensures
        0 <= spec_score(rule, dice) <= 50000,
{
    crate::dice::lemma_sum_bounds(dice);
    lemma_count_le_len(dice, 1);
    lemma_count_le_len(dice, 2);
    lemma_count_le_len(dice, 3);
    lemma_count_le_len(dice, 4);
    lemma_count_le_len(dice, 5);
    lemma_count_le_len(dice, 6);
}

impl DiceRule {
    /// Category at a given ordinal; `None` for ordinals past the twelve.
    pub fn from_usize(value: usize) -> (r: Option<DiceRule>)
        ensures
            value < 12 ==> r == Some(rule_of_index(value as int)),
            value >= 12 ==> r is None,
    {
        match value {
            0 => Some(DiceRule::One),
            1 => Some(DiceRule::Two),
            2 => Some(DiceRule::Three),
            3 => Some(DiceRule::Four),
            4 => Some(DiceRule::Five),
            5 => Some(DiceRule::Six),
            6 => Some(DiceRule::Choice),
            7 => Some(DiceRule::FourOfAKind),
            8 => Some(DiceRule::FullHouse),
            9 => Some(DiceRule::SmallStraight),
            10 => Some(DiceRule::LargeStraight),
            11 => Some(DiceRule::Yacht),
            _ => None,
        }
    }

    /// Ordinal of this category in the fixed order.
    pub fn to_index(self) -> (i: usize)
        ensures
            i == rule_index(self),
            i < 12,
    {
        match self {
            DiceRule::One => 0,
            DiceRule::Two => 1,
            DiceRule::Three => 2,
            DiceRule::Four => 3,
            DiceRule::Five => 4,
            DiceRule::Six => 5,
            DiceRule::Choice => 6,
            DiceRule::FourOfAKind => 7,
            DiceRule::FullHouse => 8,
            DiceRule::SmallStraight => 9,
            DiceRule::LargeStraight => 10,
            DiceRule::Yacht => 11,
        }
    }
}

/// Picks the witness face out of an existential over faces 1 through 6, so
/// the solver can match it against the six computed counts.
proof fn lemma_face_cases(dice: Seq<i32>, v: i32)
    requires
        1 <= v <= 6,
    ensures
        v == 1 || v == 2 || v == 3 || v == 4 || v == 5 || v == 6,
{
}

/// Scores five dice under a category.
pub fn score_dice(dice: &[i32], rule: DiceRule) -> (score: i32)
    requires
        dice@.len() == 5,
        all_dice_valid(dice@),
    ensures
        score == spec_score(rule, dice@),
        0 <= score <= 50000,
{
    proof {
        lemma_score_bounds(rule, dice@);
    }
    match rule {
        DiceRule::One => {
            let c = count_in(dice, 1);
            proof {
                lemma_count_le_len(dice@, 1);
            }
            (c as i32) * 1000
        },
        DiceRule::Two => {
            let c = count_in(dice, 2);
            proof {
                lemma_count_le_len(dice@, 2);
            }
            (c as i32) * 2000
        },
        DiceRule::Three => {
            let c = count_in(dice, 3);
            proof {
                lemma_count_le_len(dice@, 3);
            }
            (c as i32) * 3000
        },
        DiceRule::Four => {
            let c = count_in(dice, 4);
            proof {
                lemma_count_le_len(dice@, 4);
            }
            (c as i32) * 4000
        },
        DiceRule::Five => {
            let c = count_in(dice, 5);
            proof {
                lemma_count_le_len(dice@, 5);
            }
            (c as i32) * 5000
        },
        DiceRule::Six => {
            let c = count_in(dice, 6);
            proof {
                lemma_count_le_len(dice@, 6);
            }
            (c as i32) * 6000
        },
        DiceRule::Choice => sum_dice(dice) * 1000,
        DiceRule::FourOfAKind => {
            let c1 = count_in(dice, 1);
            let c2 = count_in(dice, 2);
            let c3 = count_in(dice, 3);
            let c4 = count_in(dice, 4);
            let c5 = count_in(dice, 5);
            let c6 = count_in(dice, 6);
            let ok = c1 >= 4 || c2 >= 4 || c3 >= 4 || c4 >= 4 || c5 >= 4 || c6 >= 4;
            proof {
                if is_four_of_a_kind(dice@) {
                    let v = choose|v: i32| 1 <= v <= 6 && count_val(dice@, v) >= 4;
                    lemma_face_cases(dice@, v);
                }
            }
            if ok {
                sum_dice(dice) * 1000
            } else {
                0
            }
        },
        DiceRule::FullHouse => {
            let c1 = count_in(dice, 1);
            let c2 = count_in(dice, 2);
            let c3 = count_in(dice, 3);
            let c4 = count_in(dice, 4);
            let c5 = count_in(dice, 5);
            let c6 = count_in(dice, 6);
            let pair = c1 == 2 || c2 == 2 || c3 == 2 || c4 == 2 || c5 == 2 || c6 == 2 || c1 == 5
                || c2 == 5 || c3 == 5 || c4 == 5 || c5 == 5 || c6 == 5;
            let triple = c1 == 3 || c2 == 3 || c3 == 3 || c4 == 3 || c5 == 3 || c6 == 3 || c1 == 5
                || c2 == 5 || c3 == 5 || c4 == 5 || c5 == 5 || c6 == 5;
            proof {
                if has_exact_count(dice@, 2) {
                    let v = choose|v: i32| 1 <= v <= 6 && count_val(dice@, v) == 2;
                    lemma_face_cases(dice@, v);
                }
                if has_exact_count(dice@, 3) {
                    let v = choose|v: i32| 1 <= v <= 6 && count_val(dice@, v) == 3;
                    lemma_face_cases(dice@, v);
                }
                if has_exact_count(dice@, 5) {
                    let v = choose|v: i32| 1 <= v <= 6 && count_val(dice@, v) == 5;
                    lemma_face_cases(dice@, v);
                }
            }
            if pair && triple {
                sum_dice(dice) * 1000
            } else {
                0
            }
        },
        DiceRule::SmallStraight => {
            let e1 = count_in(dice, 1) > 0;
            let e2 = count_in(dice, 2) > 0;
            let e3 = count_in(dice, 3) > 0;
            let e4 = count_in(dice, 4) > 0;
            let e5 = count_in(dice, 5) > 0;
            let e6 = count_in(dice, 6) > 0;
            let ok = (e1 && e2 && e3 && e4) || (e2 && e3 && e4 && e5) || (e3 && e4 && e5 && e6);
            if ok {
                15000
            } else {
                0
            }
        },
        DiceRule::LargeStraight => {
            let e1 = count_in(dice, 1) > 0;
            let e2 = count_in(dice, 2) > 0;
            let e3 = count_in(dice, 3) > 0;
            let e4 = count_in(dice, 4) > 0;
            let e5 = count_in(dice, 5) > 0;
            let e6 = count_in(dice, 6) > 0;
            let ok = (e1 && e2 && e3 && e4 && e5) || (e2 && e3 && e4 && e5 && e6);
            if ok {
                30000
            } else {
                0
            }
        },
        DiceRule::Yacht => {
            let c1 = count_in(dice, 1);
            let c2 = count_in(dice, 2);
            let c3 = count_in(dice, 3);
            let c4 = count_in(dice, 4);
            let c5 = count_in(dice, 5);
            let c6 = count_in(dice, 6);
            let ok = c1 == 5 || c2 == 5 || c3 == 5 || c4 == 5 || c5 == 5 || c6 == 5;
            proof {
                if is_yacht(dice@) {
                    let v = choose|v: i32| 1 <= v <= 6 && count_val(dice@, v) == 5;
                    lemma_face_cases(dice@, v);
                }
            }
            if ok {
                50000
            } else {
                0
            }
        },
    }
}

} // verus!
