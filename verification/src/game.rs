//! The match-level state and the bidding and placement heuristics.

use vstd::prelude::*;
use vstd::pervasive::{unreached, VecAdditionalExecFns};
use crate::dice::{
    all_dice_valid, count_in, count_val, keep_eq, keep_ne, lemma_count_contains,
    lemma_count_le_len, lemma_keep_eq_elems, lemma_keep_len, lemma_keep_ne_valid, lemma_take_full,
    lemma_take_upto_props, lemma_take_upto_push, sum_dice, sum_of, take_upto,
};
use crate::rules::{rule_index, rule_of_index, score_dice, spec_score, DiceRule};
use crate::state::{use_dice_post, Bid, DicePut, GameState, PlacementError};

verus! {

/// The whole match as one side sees it: both players' states, the round
/// counter, the opponent's bid history, and the denial flag.
pub struct Game {
    pub my_state: GameState,
    pub opp_state: GameState,
    /// Current round, 1-based; 0 before the first draw.
    pub current_round: i32,
    /// Opponent's bid amount per round, indexed by round number (slot 0 unused).
    pub opponent_bids: Vec<i32>,
    /// Whether the opponent has already scored a nonzero YACHT.
    pub opponent_yacht_completed: bool,
}

/// Largest per-face multiplicity among faces 1 through `f` in `s`.
pub open spec fn max_count_upto(s: Seq<i32>, f: int) -> nat
    decreases f,
{
    if f < 1 {
        0
    } else {
        let prev = max_count_upto(s, f - 1);
        let c = count_val(s, f as i32);
        if c > prev {
            c
        } else {
            prev
        }
    }
}

/// Largest per-face multiplicity in `s`.
pub open spec fn max_dup_count(s: Seq<i32>) -> nat {
    max_count_upto(s, 6)
}

/// The face among 1 through `f` with the highest multiplicity in `s`,
/// together with that multiplicity; the lowest such face wins ties, and
/// `(0, 0)` stands for "no face seen yet".
pub open spec fn best_face_upto(s: Seq<i32>, f: int) -> (int, nat)
    decreases f,
{
    if f < 1 {
        (0, 0)
    } else {
        let prev = best_face_upto(s, f - 1);
        let c = count_val(s, f as i32);
        if c > prev.1 {
            (f, c)
        } else {
            prev
        }
    }
}

/// Lowest face among 1 through 6 with multiplicity at least 4 in `s`;
/// 0 when there is none. Faces below `f` are assumed already ruled out.
pub open spec fn first_face_ge4(s: Seq<i32>, f: int) -> int
    decreases 7 - f,
{
    if f > 6 {
        0
    } else if count_val(s, f as i32) >= 4 {
        f
    } else {
        first_face_ge4(s, f + 1)
    }
}

/// The denial decision: bid 5001 on the single group that would hand the
/// opponent a fourth-plus copy of a face they already hold four of, unless
/// they have completed YACHT or both or neither group carries the face.
pub open spec fn spec_block(
    opp_pool: Seq<i32>,
    completed: bool,
    a: Seq<i32>,
    b: Seq<i32>,
) -> Option<(char, i32)> {
    if completed {
        None
    } else if opp_pool.len() < 4 {
        None
    } else {
        let t = first_face_ge4(opp_pool, 1);
        if t == 0 {
            None
        } else {
            let ca = count_val(a, t as i32);
            let cb = count_val(b, t as i32);
            if ca > 0 && cb == 0 {
                Some(('A', 5001))
            } else if ca == 0 && cb > 0 {
                Some(('B', 5001))
            } else {
                None
            }
        }
    }
}

impl Game {
    /// Well-formedness of the whole match state.
    pub open spec fn wf(&self) -> bool {
        &&& self.my_state.wf()
        &&& self.opp_state.wf()
        &&& self.opponent_bids@.len() == 13
        &&& forall|i: int| 0 <= i < 13 ==> 0 <= #[trigger] self.opponent_bids@[i]
    }

    /// A fresh match: both sides empty, round 0, no bids recorded, flag off.
    pub fn new() -> (g: Game)
        ensures
            g.wf(),
            g.my_state.dice@.len() == 0,
            g.opp_state.dice@.len() == 0,
            forall|i: int| 0 <= i < 12 ==> (#[trigger] g.my_state.rule_score@[i]) is None,
            forall|i: int| 0 <= i < 12 ==> (#[trigger] g.opp_state.rule_score@[i]) is None,
            g.my_state.bid_score == 0,
            g.opp_state.bid_score == 0,
            g.current_round == 0,
            forall|i: int| 0 <= i < 13 ==> #[trigger] g.opponent_bids@[i] == 0,
            !g.opponent_yacht_completed,
    {
        let mut opponent_bids: Vec<i32> = Vec::new();
        let mut i: usize = 0;
        while i < 13
            invariant
                i <= 13,
                opponent_bids@.len() == i,
                forall|j: int| 0 <= j < i ==> #[trigger] opponent_bids@[j] == 0,
            decreases 13 - i,
        {
            opponent_bids.push(0);
            i = i + 1;
        }
        Game {
            my_state: GameState::new(),
            opp_state: GameState::new(),
            current_round: 0,
            opponent_bids,
            opponent_yacht_completed: false,
        }
    }

    /// Largest per-face multiplicity in a group of five dice.
    pub fn get_max_duplicate_count(&self, dice_group: &[i32]) -> (m: i32)
        requires
            dice_group@.len() == 5,
            all_dice_valid(dice_group@),
        ensures
            m == max_dup_count(dice_group@),
            0 <= m <= 5,
    {
        let mut m: usize = 0;
        let mut f: usize = 1;
        while f <= 6
            invariant
                1 <= f <= 7,
                dice_group@.len() == 5,
                m == max_count_upto(dice_group@, f - 1 as int),
                m <= 5,
            decreases 7 - f,
        {
            let c = count_in(dice_group, f as i32);
            proof {
                lemma_count_le_len(dice_group@, f as i32);
            }
            if c > m {
                m = c;
            }
            f = f + 1;
        }
        m as i32
    }

    /// Records the opponent's bid amount for a round.
    pub fn save_opponent_bid(&mut self, round: i32, bid_amount: i32)
        requires
            1 <= round <= 12,
            old(self).opponent_bids@.len() == 13,
            0 <= bid_amount,
        ensures
            final(self).opponent_bids@ == old(self).opponent_bids@.update(
                round as int,
                bid_amount,
            ),
            final(self).my_state == old(self).my_state,
            final(self).opp_state == old(self).opp_state,
            final(self).current_round == old(self).current_round,
            final(self).opponent_yacht_completed == old(self).opponent_yacht_completed,
    {
        self.opponent_bids.set(round as usize, bid_amount);
    }

    /// Draws a value in `[min, max]` from the supplied entropy word.
    pub fn random_between(&self, min: i32, max: i32, entropy: u64) -> (r: i32)
        requires
            0 <= min <= max,
            max - min < i32::MAX,
        ensures
            r == min + (entropy % ((max - min + 1) as u64)) as i32,
            min <= r <= max,
    {
        let span = (max - min + 1) as u64;
        min + (entropy % span) as i32
    }

    /// Re-evaluates the denial flag from the opponent's YACHT slot.
    pub fn check_opponent_yacht_completion(&mut self)
        requires
            old(self).opp_state.rule_score@.len() == 12,
        ensures
            final(self).opponent_yacht_completed == (old(self).opponent_yacht_completed || (
            old(self).opp_state.rule_score@[11] matches Some(s) && s > 0)),
            final(self).my_state == old(self).my_state,
            final(self).opp_state == old(self).opp_state,
            final(self).current_round == old(self).current_round,
            final(self).opponent_bids == old(self).opponent_bids,
    {
        match self.opp_state.rule_score[11] {
            Some(score) => {
                if score > 0 {
                    self.opponent_yacht_completed = true;
                }
            },
            None => {},
        }
    }

    /// The denial check: whether to outbid for the group the opponent needs
    /// to complete YACHT, and at the fixed premium of 5001.
    pub fn should_block_yacht(&self, dice_a: &[i32], dice_b: &[i32]) -> (r: Option<(char, i32)>)
        ensures
            r == spec_block(
                self.opp_state.dice@,
                self.opponent_yacht_completed,
                dice_a@,
                dice_b@,
            ),
    {
        if self.opponent_yacht_completed {
            return None;
        }
        if self.opp_state.dice.len() < 4 {
            return None;
        }
        let mut f: usize = 1;
        let mut target: usize = 0;
        while f <= 6 && target == 0
            invariant
                1 <= f <= 7,
                target == 0 ==> first_face_ge4(self.opp_state.dice@, 1) == first_face_ge4(
                    self.opp_state.dice@,
                    f as int,
                ),
                target != 0 ==> target == first_face_ge4(self.opp_state.dice@, 1) && 1 <= target
                    <= 6,
            decreases 7 - f + if target == 0 {
                1int
            } else {
                0int
            },
        {
            let c = count_in(self.opp_state.dice.as_slice(), f as i32);
            if c >= 4 {
                target = f;
            }
            f = f + 1;
        }
        if target == 0 {
            return None;
        }
        let ca = count_in(dice_a, target as i32);
        let cb = count_in(dice_b, target as i32);
        if ca > 0 && cb == 0 {
            Some(('A', 5001))
        } else if ca == 0 && cb > 0 {
            Some(('B', 5001))
        } else {
            None
        }
    }

    /// The face most duplicated in the bidder's own pool and its count; the
    /// lowest face wins ties. `None` on an empty pool.
    pub fn get_my_max_duplicate_number(&self) -> (r: Option<(i32, i32)>)
        requires
            self.my_state.wf(),
            self.my_state.dice@.len() <= i32::MAX,
        ensures
            self.my_state.dice@.len() == 0 ==> r is None,
            self.my_state.dice@.len() > 0 ==> r == Some(
                (
                    best_face_upto(self.my_state.dice@, 6).0 as i32,
                    best_face_upto(self.my_state.dice@, 6).1 as i32,
                ),
            ),
    {
        if self.my_state.dice.len() == 0 {
            return None;
        }
        let mut max_number: usize = 0;
        let mut max_count: usize = 0;
        let mut f: usize = 1;
        while f <= 6
            invariant
                1 <= f <= 7,
                self.my_state.wf(),
                self.my_state.dice@.len() <= i32::MAX,
                (max_number as int, max_count as nat) == best_face_upto(
                    self.my_state.dice@,
                    f - 1 as int,
                ),
                max_number <= 6,
                max_count <= self.my_state.dice@.len(),
            decreases 7 - f,
        {
            let c = count_in(self.my_state.dice.as_slice(), f as i32);
            proof {
                lemma_count_le_len(self.my_state.dice@, f as i32);
            }
            if c > max_count {
                max_count = c;
                max_number = f;
            }
            f = f + 1;
        }
        proof {
            lemma_pool_has_face(self.my_state.dice@);
        }
        if max_count > 0 {
            Some((max_number as i32, max_count as i32))
        } else {
            None
        }
    }
}

/// Ordinals of the unset category slots of `rs`, in increasing order.
pub open spec fn unused_indices(rs: Seq<Option<i32>>) -> Seq<usize>
    decreases rs.len(),
{
    if rs.len() == 0 {
        Seq::empty()
    } else {
        unused_indices(rs.drop_last()) + if rs.last() is None {
            seq![(rs.len() - 1) as usize]
        } else {
            Seq::empty()
        }
    }
}

/// Best score the group `dice` can reach across the category ordinals listed
/// in `rules` (ordinals past the twelve contribute nothing).
pub open spec fn list_potential(dice: Seq<i32>, rules: Seq<usize>) -> int
    decreases rules.len(),
{
    if rules.len() == 0 {
        0
    } else {
        let prev = list_potential(dice, rules.drop_last());
        let r = rules.last();
        let s = if r < 12 {
            spec_score(rule_of_index(r as int), dice)
        } else {
            0
        };
        if s > prev {
            s
        } else {
            prev
        }
    }
}

/// Best score the group `dice` can reach across the categories still unused
/// in `rs`.
pub open spec fn spec_potential(dice: Seq<i32>, rs: Seq<Option<i32>>) -> int {
    list_potential(dice, unused_indices(rs))
}

/// Group preferred when falling back to raw sums: the one with the larger
/// total, B on a tie.
pub open spec fn spec_sum_choice(a: Seq<i32>, b: Seq<i32>) -> char {
    if sum_of(a) > sum_of(b) {
        'A'
    } else {
        'B'
    }
}

/// The group-selection decision: prefer the group carrying more copies of
/// the bidder's most-duplicated face; on an exact nonzero tie go by sums up
/// to round 8 and by remaining potential afterwards; otherwise go by sums.
pub open spec fn spec_select_group(
    pool: Seq<i32>,
    rs: Seq<Option<i32>>,
    round: int,
    a: Seq<i32>,
    b: Seq<i32>,
) -> char {
    if pool.len() > 0 {
        let n = best_face_upto(pool, 6).0 as i32;
        let ca = count_val(a, n);
        let cb = count_val(b, n);
        if ca > cb {
            'A'
        } else if cb > ca {
            'B'
        } else if ca > 0 {
            if round <= 8 {
                spec_sum_choice(a, b)
            } else {
                if spec_potential(a, rs) > spec_potential(b, rs) {
                    'A'
                } else {
                    'B'
                }
            }
        } else {
            spec_sum_choice(a, b)
        }
    } else {
        spec_sum_choice(a, b)
    }
}

/// The round-1 bid amount: 1001 when the best duplicate across both groups
/// is a triple, 2001 when it is four of a kind, 1 otherwise.
pub open spec fn spec_round1_amount(a: Seq<i32>, b: Seq<i32>) -> int {
    let ma = max_dup_count(a);
    let mb = max_dup_count(b);
    let m = if ma >= mb {
        ma
    } else {
        mb
    };
    if m == 3 {
        1001
    } else if m == 4 {
        2001
    } else {
        1
    }
}

impl Game {
    /// The bid amount for the current round: the round-1 duplicate rule, the
    /// round-2 reaction to the opponent's first bid, and from round 3 on a
    /// draw from {2,3} or {0,1} keyed to the parity of the opponent's
    /// round-2 bid, resolved by the supplied entropy word.
    pub open spec fn spec_bid_amount(&self, a: Seq<i32>, b: Seq<i32>, entropy: u64) -> int {
        if self.current_round == 1 {
            spec_round1_amount(a, b)
        } else if self.current_round == 2 {
            if self.opponent_bids@[1] > 1 {
                101
            } else {
                0
            }
        } else {
            if self.opponent_bids@[2] % 2 == 1 {
                2 + (entropy % 2) as int
            } else {
                (entropy % 2) as int
            }
        }
    }

    /// The full bid decision: the denial bid when its condition holds, else
    /// the selected group with the round-keyed amount.
    pub open spec fn spec_bid(&self, a: Seq<i32>, b: Seq<i32>, entropy: u64) -> Bid {
        match spec_block(self.opp_state.dice@, self.opponent_yacht_completed, a, b) {
            Some((g, amt)) => Bid { group: g, amount: amt },
            None => (Bid {
                group: spec_select_group(
                    self.my_state.dice@,
                    self.my_state.rule_score@,
                    self.current_round as int,
                    a,
                    b,
                ),
                amount: self.spec_bid_amount(a, b, entropy) as i32,
            }),
        }
    }

    /// Best score `dice` can reach across the given category ordinals.
    pub fn calculate_potential_score(&self, dice: &[i32], unused_rules: &[usize]) -> (best: i32)
        requires
            dice@.len() == 5,
            all_dice_valid(dice@),
        ensures
            best == list_potential(dice@, unused_rules@),
            0 <= best <= 50000,
    {
        let mut best: i32 = 0;
        let mut k: usize = 0;
        while k < unused_rules.len()
            invariant
                k <= unused_rules@.len(),
                dice@.len() == 5,
                all_dice_valid(dice@),
                best == list_potential(dice@, unused_rules@.take(k as int)),
                0 <= best <= 50000,
            decreases unused_rules@.len() - k,
        {
            match DiceRule::from_usize(unused_rules[k]) {
                Some(rule) => {
                    let s = self.calculate_rule_potential_score(dice, rule);
                    if s > best {
                        best = s;
                    }
                },
                None => {},
            }
            proof {
                assert(unused_rules@.take(k + 1 as int).drop_last() =~= unused_rules@.take(
                    k as int,
                ));
                assert(unused_rules@.take(k + 1 as int).last() == unused_rules@[k as int]);
            }
            k = k + 1;
        }
        proof {
            assert(unused_rules@.take(unused_rules@.len() as int) =~= unused_rules@);
        }
        best
    }

    /// Score a group of five dice would earn under one category.
    pub fn calculate_rule_potential_score(&self, dice: &[i32], rule: DiceRule) -> (score: i32)
        requires
            dice@.len() == 5,
            all_dice_valid(dice@),
        ensures
            score == spec_score(rule, dice@),
            0 <= score <= 50000,
    {
        score_dice(dice, rule)
    }

    /// Collects the ordinals of the categories this side has not used yet.
    fn collect_unused_rules(&self) -> (unused: Vec<usize>)
        requires
            self.my_state.rule_score@.len() == 12,
        ensures
            unused@ == unused_indices(self.my_state.rule_score@),
    {
        let mut unused: Vec<usize> = Vec::new();
        let mut i: usize = 0;
        while i < 12
            invariant
                i <= 12,
                self.my_state.rule_score@.len() == 12,
                unused@ == unused_indices(self.my_state.rule_score@.take(i as int)),
            decreases 12 - i,
        {
            proof {
                assert(self.my_state.rule_score@.take(i + 1 as int).drop_last()
                    =~= self.my_state.rule_score@.take(i as int));
                assert(self.my_state.rule_score@.take(i + 1 as int).last()
                    == self.my_state.rule_score@[i as int]);
            }
            if self.my_state.rule_score[i].is_none() {
                unused.push(i);
                proof {
                    assert(unused@ =~= unused_indices(self.my_state.rule_score@.take(i as int))
                        + seq![i]);
                }
            } else {
                proof {
                    assert(unused_indices(self.my_state.rule_score@.take(i + 1 as int))
                        =~= unused_indices(self.my_state.rule_score@.take(i as int)));
                }
            }
            i = i + 1;
        }
        proof {
            assert(self.my_state.rule_score@.take(12) =~= self.my_state.rule_score@);
        }
        unused
    }

    /// From round 9 on a tied group choice goes to the group whose best
    /// achievable score across the unused categories is higher, B on a tie.
    pub fn select_group_by_remaining_combinations(&self, dice_a: &[i32], dice_b: &[i32]) -> (g:
        char)
        requires
            self.my_state.wf(),
            dice_a@.len() == 5,
            dice_b@.len() == 5,
            all_dice_valid(dice_a@),
            all_dice_valid(dice_b@),
        ensures
            g == if spec_potential(dice_a@, self.my_state.rule_score@) > spec_potential(
                dice_b@,
                self.my_state.rule_score@,
            ) {
                'A'
            } else {
                'B'
            },
    {
        let unused = self.collect_unused_rules();
        let score_a = self.calculate_potential_score(dice_a, unused.as_slice());
        let score_b = self.calculate_potential_score(dice_b, unused.as_slice());
        if score_a > score_b {
            'A'
        } else {
            'B'
        }
    }

    /// Picks the offered group by the bidder's own duplicate pattern.
    pub fn select_group_based_on_my_dice(&self, dice_a: &[i32], dice_b: &[i32]) -> (g: char)
        requires
            self.my_state.wf(),
            self.my_state.dice@.len() <= i32::MAX,
            dice_a@.len() == 5,
            dice_b@.len() == 5,
            all_dice_valid(dice_a@),
            all_dice_valid(dice_b@),
        ensures
            g == spec_select_group(
                self.my_state.dice@,
                self.my_state.rule_score@,
                self.current_round as int,
                dice_a@,
                dice_b@,
            ),
            g == 'A' || g == 'B',
    {
        match self.get_my_max_duplicate_number() {
            Some((my_max_number, _my_max_count)) => {
                let count_a = count_in(dice_a, my_max_number);
                let count_b = count_in(dice_b, my_max_number);
                if count_a > count_b {
                    return 'A';
                } else if count_b > count_a {
                    return 'B';
                } else if count_a > 0 {
                    if self.current_round <= 8 {
                        let sum_a = sum_dice(dice_a);
                        let sum_b = sum_dice(dice_b);
                        return if sum_a > sum_b {
                            'A'
                        } else {
                            'B'
                        };
                    } else {
                        return self.select_group_by_remaining_combinations(dice_a, dice_b);
                    }
                }
            },
            None => {},
        }
        let sum_a = sum_dice(dice_a);
        let sum_b = sum_dice(dice_b);
        if sum_a > sum_b {
            'A'
        } else {
            'B'
        }
    }

    /// Decides the bid for the two offered groups. The entropy word resolves
    /// the randomized draws of rounds 3 and later; any value is acceptable
    /// and only shifts the draw within its documented range.
    pub fn calculate_bid(&self, dice_a: &[i32], dice_b: &[i32], entropy: u64) -> (bid: Bid)
        requires
            self.wf(),
            self.my_state.dice@.len() <= i32::MAX,
            dice_a@.len() == 5,
            dice_b@.len() == 5,
            all_dice_valid(dice_a@),
            all_dice_valid(dice_b@),
        ensures
            bid == self.spec_bid(dice_a@, dice_b@, entropy),
            spec_block(
                self.opp_state.dice@,
                self.opponent_yacht_completed,
                dice_a@,
                dice_b@,
            ) is Some ==> bid.amount == 5001,
            spec_block(
                self.opp_state.dice@,
                self.opponent_yacht_completed,
                dice_a@,
                dice_b@,
            ) is None ==> 0 <= bid.amount <= 100000 && bid.amount != 5001,
            bid.group == 'A' || bid.group == 'B',
    {
        match self.should_block_yacht(dice_a, dice_b) {
            Some((group, amount)) => {
                return Bid { group, amount };
            },
            None => {},
        }
        let group = self.select_group_based_on_my_dice(dice_a, dice_b);
        if self.current_round == 1 {
            let max_count_a = self.get_max_duplicate_count(dice_a);
            let max_count_b = self.get_max_duplicate_count(dice_b);
            let max_count = if max_count_a >= max_count_b {
                max_count_a
            } else {
                max_count_b
            };
            let amount: i32 = if max_count == 3 {
                1001
            } else if max_count == 4 {
                2001
            } else {
                1
            };
            Bid { group, amount }
        } else if self.current_round == 2 {
            let first_round_bid = self.opponent_bids[1];
            let amount: i32 = if first_round_bid > 1 {
                101
            } else {
                0
            };
            Bid { group, amount }
        } else {
            let second_round_bid = self.opponent_bids[2];
            let amount: i32 = if second_round_bid % 2 == 1 {
                self.random_between(2, 3, entropy)
            } else {
                self.random_between(0, 1, entropy)
            };
            Bid { group, amount }
        }
    }
}

/// The all-zero dummy subset used when no candidate scores.
pub open spec fn zeros5() -> Seq<i32> {
    seq![0i32, 0i32, 0i32, 0i32, 0i32]
}

/// A candidate that front-loads every occurrence of `v` and fills the rest
/// with the other pool entries, in pool order, capped at five dice.
pub open spec fn front_load(s: Seq<i32>, v: i32) -> Seq<i32> {
    take_upto(keep_eq(s, v) + keep_ne(s, v), 5)
}

/// Front-loaded candidates for every face up to `f` with multiplicity at
/// least 3, by increasing face.
pub open spec fn dup_candidates_upto(s: Seq<i32>, f: int) -> Seq<Seq<i32>>
    decreases f,
{
    if f < 1 {
        Seq::empty()
    } else {
        dup_candidates_upto(s, f - 1) + if count_val(s, f as i32) >= 3 {
            seq![front_load(s, f as i32)]
        } else {
            Seq::empty()
        }
    }
}

/// The two straight-run templates, offered whatever the pool holds.
pub open spec fn straight_candidates() -> Seq<Seq<i32>> {
    seq![seq![1i32, 2i32, 3i32, 4i32, 5i32], seq![2i32, 3i32, 4i32, 5i32, 6i32]]
}

/// The candidates before the straight templates: the first five pool
/// entries, the last five when the pool is longer, and the front-loaded
/// duplicates for faces up to `f`.
pub open spec fn cand_prefix(s: Seq<i32>, f: int) -> Seq<Seq<i32>> {
    seq![s.take(5)] + (if s.len() > 5 {
        seq![s.skip(s.len() - 5)]
    } else {
        Seq::empty()
    }) + dup_candidates_upto(s, f)
}

/// The bounded candidate list the placement heuristic scans; empty when the
/// pool holds fewer than five dice.
pub open spec fn spec_candidates(s: Seq<i32>) -> Seq<Seq<i32>> {
    if s.len() < 5 {
        Seq::empty()
    } else {
        cand_prefix(s, 6) + straight_candidates()
    }
}

/// Best candidate for one category: the first candidate in list order that
/// reaches the highest score, `(0, zeros)` when nothing scores.
pub open spec fn cand_best(cands: Seq<Seq<i32>>, rule: DiceRule) -> (int, Seq<i32>)
    decreases cands.len(),
{
    if cands.len() == 0 {
        (0, zeros5())
    } else {
        let prev = cand_best(cands.drop_last(), rule);
        let s = spec_score(rule, cands.last());
        if s > prev.0 {
            (s, cands.last())
        } else {
            prev
        }
    }
}

/// Best placement among the categories with ordinal below `i`: score,
/// ordinal and dice of the lowest-ordinal unused category reaching the
/// highest score.
pub open spec fn put_best_upto(
    pool: Seq<i32>,
    rs: Seq<Option<i32>>,
    i: int,
) -> (int, int, Seq<i32>)
    decreases i,
{
    if i <= 0 {
        (0, 0, zeros5())
    } else {
        let prev = put_best_upto(pool, rs, i - 1);
        if rs[i - 1] is None {
            let cb = cand_best(spec_candidates(pool), rule_of_index(i - 1));
            if cb.0 > prev.0 {
                (cb.0, i - 1, cb.1)
            } else {
                prev
            }
        } else {
            prev
        }
    }
}

/// Lowest unused ordinal at or past `i`; 12 when every category is used.
pub open spec fn first_unused(rs: Seq<Option<i32>>, i: int) -> int
    decreases 12 - i,
{
    if i >= 12 {
        12
    } else if rs[i] is None {
        i
    } else {
        first_unused(rs, i + 1)
    }
}

/// A positive best placement score always names an unused category.
pub proof fn lemma_put_best_unused(pool: Seq<i32>, rs: Seq<Option<i32>>, i: int)
    ensures
        put_best_upto(pool, rs, i).0 > 0 ==> 0 <= put_best_upto(pool, rs, i).1 < i
            && rs[put_best_upto(pool, rs, i).1] is None,
        put_best_upto(pool, rs, i).0 >= 0,
    decreases i,
{
    if i > 0 {
        lemma_put_best_unused(pool, rs, i - 1);
    }
}

/// `first_unused` names an unused slot whenever one exists at or past `i`.
pub proof fn lemma_first_unused(rs: Seq<Option<i32>>, i: int)
    requires
        0 <= i <= 12,
    ensures
        first_unused(rs, i) < 12 ==> i <= first_unused(rs, i) && rs[first_unused(rs, i)] is None,
    decreases 12 - i,
{
    if i < 12 && !(rs[i] is None) {
        lemma_first_unused(rs, i + 1);
    }
}

/// Builds the candidate that front-loads the occurrences of `v`.
fn build_front_load(dice: &[i32], v: i32) -> (cand: [i32; 5])
    requires
        dice@.len() >= 5,
        all_dice_valid(dice@),
        1 <= v <= 6,
    ensures
        cand@ == front_load(dice@, v),
        all_dice_valid(cand@),
{
    let mut comb: Vec<i32> = Vec::new();
    let mut i: usize = 0;
    while i < dice.len()
        invariant
            i <= dice@.len(),
            all_dice_valid(dice@),
            1 <= v <= 6,
            comb@ == take_upto(keep_eq(dice@.take(i as int), v), 5),
            comb@.len() <= 5,
        decreases dice@.len() - i,
    {
        proof {
            let pre = dice@.take(i as int);
            let post = dice@.take(i + 1 as int);
            assert(post.drop_last() =~= pre);
            assert(post.last() == dice@[i as int]);
            lemma_take_upto_props(keep_eq(pre, v), 5);
            if dice@[i as int] == v {
                assert(keep_eq(post, v) == keep_eq(pre, v) + seq![dice@[i as int]]);
                lemma_take_upto_push(keep_eq(pre, v), dice@[i as int], 5);
            } else {
                assert(keep_eq(post, v) =~= keep_eq(pre, v));
            }
        }
        if dice[i] == v && comb.len() < 5 {
            comb.push(dice[i]);
        }
        i = i + 1;
    }
    proof {
        lemma_take_full(dice@);
        lemma_take_upto_props(keep_eq(dice@, v), 5);
    }
    let mut j: usize = 0;
    while j < dice.len()
        invariant
            j <= dice@.len(),
            all_dice_valid(dice@),
            1 <= v <= 6,
            comb@ == take_upto(keep_eq(dice@, v) + keep_ne(dice@.take(j as int), v), 5),
            comb@.len() <= 5,
        decreases dice@.len() - j,
    {
        proof {
            let pre = dice@.take(j as int);
            let post = dice@.take(j + 1 as int);
            let base = keep_eq(dice@, v);
            assert(post.drop_last() =~= pre);
            assert(post.last() == dice@[j as int]);
            lemma_take_upto_props(base + keep_ne(pre, v), 5);
            if dice@[j as int] != v {
                assert(keep_ne(post, v) == keep_ne(pre, v) + seq![dice@[j as int]]);
                assert(base + keep_ne(post, v) =~= (base + keep_ne(pre, v)) + seq![
                    dice@[j as int],
                ]);
                lemma_take_upto_push(base + keep_ne(pre, v), dice@[j as int], 5);
            } else {
                assert(keep_ne(post, v) =~= keep_ne(pre, v));
            }
        }
        if dice[j] != v && comb.len() < 5 {
            comb.push(dice[j]);
        }
        j = j + 1;
    }
    proof {
        lemma_take_full(dice@);
        lemma_keep_len(dice@, v);
        lemma_take_upto_props(keep_eq(dice@, v) + keep_ne(dice@, v), 5);
        assert(comb@.len() == 5);
        assert(all_dice_valid(comb@)) by {
            lemma_keep_eq_elems(dice@, v);
            lemma_keep_ne_valid(dice@, v);
            let cat = keep_eq(dice@, v) + keep_ne(dice@, v);
            assert forall|k: int| 0 <= k < comb@.len() implies 1 <= #[trigger] comb@[k] <= 6 by {
                assert(comb@[k] == cat[k]);
                if k < keep_eq(dice@, v).len() {
                    assert(cat[k] == keep_eq(dice@, v)[k]);
                } else {
                    assert(cat[k] == keep_ne(dice@, v)[k - keep_eq(dice@, v).len()]);
                }
            }
        }
    }
    let cand: [i32; 5] = [comb[0], comb[1], comb[2], comb[3], comb[4]];
    proof {
        assert(cand@ =~= comb@);
    }
    cand
}

impl Game {
    /// The bounded candidate list for the placement scan: the first five
    /// pool entries, the last five when the pool is longer, one front-loaded
    /// candidate per face held at least three times, and the two straight
    /// templates; empty when the pool holds fewer than five dice.
    pub fn generate_dice_combinations(&self, dice: &[i32]) -> (combos: Vec<[i32; 5]>)
        requires
            all_dice_valid(dice@),
        ensures
            combos@.len() == spec_candidates(dice@).len(),
            forall|k: int|
                0 <= k < combos@.len() ==> #[trigger] combos@[k]@ == spec_candidates(dice@)[k],
            forall|k: int| 0 <= k < combos@.len() ==> all_dice_valid(#[trigger] combos@[k]@),
    {
        let mut combos: Vec<[i32; 5]> = Vec::new();
        if dice.len() < 5 {
            return combos;
        }
        let first: [i32; 5] = [dice[0], dice[1], dice[2], dice[3], dice[4]];
        proof {
            assert(first@ =~= dice@.take(5));
        }
        combos.push(first);
        if dice.len() > 5 {
            let n = dice.len();
            let last: [i32; 5] = [dice[n - 5], dice[n - 4], dice[n - 3], dice[n - 2], dice[n - 1]];
            proof {
                assert(last@ =~= dice@.skip(dice@.len() - 5));
            }
            combos.push(last);
        }
        proof {
            assert(cand_prefix(dice@, 0) =~= combos@.map_values(|c: [i32; 5]| c@));
        }
        let mut f: usize = 1;
        while f <= 6
            invariant
                1 <= f <= 7,
                dice@.len() >= 5,
                all_dice_valid(dice@),
                combos@.len() == cand_prefix(dice@, f - 1 as int).len(),
                forall|k: int|
                    0 <= k < combos@.len() ==> #[trigger] combos@[k]@ == cand_prefix(
                        dice@,
                        f - 1 as int,
                    )[k],
                forall|k: int| 0 <= k < combos@.len() ==> all_dice_valid(#[trigger] combos@[k]@),
            decreases 7 - f,
        {
            let c = count_in(dice, f as i32);
            if c >= 3 {
                let cand = build_front_load(dice, f as i32);
                combos.push(cand);
                proof {
                    assert(cand_prefix(dice@, f as int) =~= cand_prefix(dice@, f - 1 as int)
                        + seq![front_load(dice@, f as i32)]);
                }
            } else {
                proof {
                    assert(cand_prefix(dice@, f as int) =~= cand_prefix(dice@, f - 1 as int));
                }
            }
            f = f + 1;
        }
        let s1: [i32; 5] = [1, 2, 3, 4, 5];
        let s2: [i32; 5] = [2, 3, 4, 5, 6];
        proof {
            assert(s1@ =~= seq![1i32, 2i32, 3i32, 4i32, 5i32]);
            assert(s2@ =~= seq![2i32, 3i32, 4i32, 5i32, 6i32]);
        }
        combos.push(s1);
        combos.push(s2);
        proof {
            assert(spec_candidates(dice@) =~= cand_prefix(dice@, 6) + straight_candidates());
        }
        combos
    }

    /// Best candidate for one category across the bounded candidate list of
    /// this side's pool: the dice and the score, `([0; 5], 0)` when no
    /// candidate scores or the pool is short.
    pub fn find_best_dice_for_rule(&self, rule: DiceRule) -> (r: ([i32; 5], i32))
        requires
            self.my_state.wf(),
        ensures
            r.1 == cand_best(spec_candidates(self.my_state.dice@), rule).0,
            r.0@ == cand_best(spec_candidates(self.my_state.dice@), rule).1,
            0 <= r.1 <= 50000,
    {
        let mut best_dice: [i32; 5] = [0, 0, 0, 0, 0];
        let mut best_score: i32 = 0;
        proof {
            assert(best_dice@ =~= zeros5());
        }
        if self.my_state.dice.len() >= 5 {
            let combos = self.generate_dice_combinations(self.my_state.dice.as_slice());
            let ghost cands = spec_candidates(self.my_state.dice@);
            let mut k: usize = 0;
            while k < combos.len()
                invariant
                    k <= combos@.len(),
                    combos@.len() == cands.len(),
                    forall|j: int| 0 <= j < combos@.len() ==> #[trigger] combos@[j]@ == cands[j],
                    forall|j: int|
                        0 <= j < combos@.len() ==> all_dice_valid(#[trigger] combos@[j]@),
                    best_score == cand_best(cands.take(k as int), rule).0,
                    best_dice@ == cand_best(cands.take(k as int), rule).1,
                    0 <= best_score <= 50000,
                decreases combos@.len() - k,
            {
                let cand = combos[k];
                let score = score_dice(cand.as_slice(), rule);
                proof {
                    assert(cands.take(k + 1 as int).drop_last() =~= cands.take(k as int));
                    assert(cands.take(k + 1 as int).last() == cands[k as int]);
                }
                if score > best_score {
                    best_score = score;
                    best_dice = cand;
                }
                k = k + 1;
            }
            proof {
                assert(cands.take(cands.len() as int) =~= cands);
            }
        } else {
            proof {
                assert(spec_candidates(self.my_state.dice@).len() == 0);
            }
        }
        (best_dice, best_score)
    }

    /// Picks the placement: scans every unused category over the bounded
    /// candidate list and takes the globally best score, ties going to the
    /// lower-ordinal category; when nothing scores, falls back to the
    /// lowest-ordinal unused category with the all-zero dummy subset.
    pub fn calculate_put(&self) -> (put: DicePut)
        requires
            self.my_state.wf(),
            first_unused(self.my_state.rule_score@, 0) < 12,
        ensures
            put_best_upto(self.my_state.dice@, self.my_state.rule_score@, 12).0 > 0 ==> {
                &&& put.rule == rule_of_index(
                    put_best_upto(self.my_state.dice@, self.my_state.rule_score@, 12).1,
                )
                &&& put.dice@ == put_best_upto(
                    self.my_state.dice@,
                    self.my_state.rule_score@,
                    12,
                ).2
            },
            put_best_upto(self.my_state.dice@, self.my_state.rule_score@, 12).0 == 0 ==> {
                &&& put.rule == rule_of_index(first_unused(self.my_state.rule_score@, 0))
                &&& put.dice@ == zeros5()
            },
            self.my_state.rule_score@[rule_index(put.rule)] is None,
    {
        let ghost pool = self.my_state.dice@;
        let ghost rs = self.my_state.rule_score@;
        let mut best_rule: usize = 0;
        let mut best_dice: [i32; 5] = [0, 0, 0, 0, 0];
        let mut best_score: i32 = 0;
        proof {
            assert(best_dice@ =~= zeros5());
        }
        let mut i: usize = 0;
        while i < 12
            invariant
                i <= 12,
                self.my_state.wf(),
                pool == self.my_state.dice@,
                rs == self.my_state.rule_score@,
                best_score == put_best_upto(pool, rs, i as int).0,
                best_rule == put_best_upto(pool, rs, i as int).1,
                best_dice@ == put_best_upto(pool, rs, i as int).2,
                0 <= best_score <= 50000,
                best_rule < 12,
            decreases 12 - i,
        {
            if self.my_state.rule_score[i].is_none() {
                match DiceRule::from_usize(i) {
                    Some(rule) => {
                        let (dice, score) = self.find_best_dice_for_rule(rule);
                        if score > best_score {
                            best_score = score;
                            best_rule = i;
                            best_dice = dice;
                        }
                    },
                    None => unreached(),
                }
            }
            i = i + 1;
        }
        proof {
            lemma_put_best_unused(pool, rs, 12);
            lemma_first_unused(rs, 0);
        }
        if best_score > 0 {
            let rule = match DiceRule::from_usize(best_rule) {
                Some(rule) => rule,
                None => unreached(),
            };
            DicePut { rule, dice: best_dice }
        } else {
            let mut j: usize = 0;
            while j < 12 && self.my_state.rule_score[j].is_some()
                invariant
                    j <= 12,
                    rs == self.my_state.rule_score@,
                    self.my_state.rule_score@.len() == 12,
                    first_unused(rs, 0) == first_unused(rs, j as int),
                decreases 12 - j,
            {
                j = j + 1;
            }
            proof {
                assert(j < 12);
            }
            let rule = match DiceRule::from_usize(j) {
                Some(rule) => rule,
                None => unreached(),
            };
            DicePut { rule, dice: [0, 0, 0, 0, 0] }
        }
    }

    /// Resolves one auction: records the opponent's bid for the round, hands
    /// each side its group of dice, and settles both ledgers — a side that
    /// obtained the group it declared pays its amount, a side that did not
    /// is credited with it.
    pub fn update_get(
        &mut self,
        dice_a: &[i32],
        dice_b: &[i32],
        my_bid: &Bid,
        opp_bid: &Bid,
        my_group: char,
    )
        requires
            old(self).wf(),
            1 <= old(self).current_round <= 12,
            dice_a@.len() == 5,
            dice_b@.len() == 5,
            all_dice_valid(dice_a@),
            all_dice_valid(dice_b@),
            my_group == 'A' || my_group == 'B',
            0 <= my_bid.amount <= 100000,
            0 <= opp_bid.amount <= 100000,
            i32::MIN + 100000 <= old(self).my_state.bid_score <= i32::MAX - 100000,
            i32::MIN + 100000 <= old(self).opp_state.bid_score <= i32::MAX - 100000,
        ensures
            final(self).wf(),
            final(self).my_state.dice@ == old(self).my_state.dice@ + (if my_group == 'A' {
                dice_a@
            } else {
                dice_b@
            }),
            final(self).opp_state.dice@ == old(self).opp_state.dice@ + (if my_group == 'A' {
                dice_b@
            } else {
                dice_a@
            }),
            final(self).opponent_bids@ == old(self).opponent_bids@.update(
                old(self).current_round as int,
                opp_bid.amount,
            ),
            final(self).my_state.bid_score == old(self).my_state.bid_score + (if my_bid.group
                == my_group {
                -my_bid.amount as int
            } else {
                my_bid.amount as int
            }),
            final(self).opp_state.bid_score == old(self).opp_state.bid_score + (if opp_bid.group
                == (if my_group == 'A' {
                'B'
            } else {
                'A'
            }) {
                -opp_bid.amount as int
            } else {
                opp_bid.amount as int
            }),
            final(self).my_state.rule_score@ == old(self).my_state.rule_score@,
            final(self).opp_state.rule_score@ == old(self).opp_state.rule_score@,
            final(self).current_round == old(self).current_round,
            final(self).opponent_yacht_completed == old(self).opponent_yacht_completed,
    {
        let round = self.current_round;
        self.save_opponent_bid(round, opp_bid.amount);
        if my_group == 'A' {
            self.my_state.add_dice(dice_a);
            self.opp_state.add_dice(dice_b);
        } else {
            self.my_state.add_dice(dice_b);
            self.opp_state.add_dice(dice_a);
        }
        let my_bid_ok = my_bid.group == my_group;
        self.my_state.bid(my_bid_ok, my_bid.amount);
        let opp_group = if my_group == 'A' {
            'B'
        } else {
            'A'
        };
        let opp_bid_ok = opp_bid.group == opp_group;
        self.opp_state.bid(opp_bid_ok, opp_bid.amount);
    }

    /// Commits a placement to this side's state.
    pub fn update_put(&mut self, put: &DicePut) -> (r: Result<(), PlacementError>)
        requires
            old(self).my_state.wf(),
        ensures
            use_dice_post(old(self).my_state, final(self).my_state, *put, r),
            r is Ok ==> final(self).my_state.wf(),
            final(self).opp_state == old(self).opp_state,
            final(self).current_round == old(self).current_round,
            final(self).opponent_bids == old(self).opponent_bids,
            final(self).opponent_yacht_completed == old(self).opponent_yacht_completed,
    {
        self.my_state.use_dice(put)
    }

    /// Records the opponent's placement against their state and re-checks
    /// the denial flag.
    pub fn update_set(&mut self, put: &DicePut) -> (r: Result<(), PlacementError>)
        requires
            old(self).opp_state.wf(),
        ensures
            use_dice_post(old(self).opp_state, final(self).opp_state, *put, r),
            r is Ok ==> final(self).opp_state.wf(),
            r is Ok ==> final(self).opponent_yacht_completed == (
            old(self).opponent_yacht_completed || (final(self).opp_state.rule_score@[11] matches
            Some(s) && s > 0)),
            r is Err ==> final(self).opponent_yacht_completed == old(
                self,
            ).opponent_yacht_completed,
            final(self).my_state == old(self).my_state,
            final(self).current_round == old(self).current_round,
            final(self).opponent_bids == old(self).opponent_bids,
    {
        let r = self.opp_state.use_dice(put);
        match r {
            Ok(()) => {
                self.check_opponent_yacht_completion();
                Ok(())
            },
            Err(e) => Err(e),
        }
    }
}

/// A nonempty pool of valid faces gives its most-duplicated face a positive
/// count.
pub proof fn lemma_pool_has_face(s: Seq<i32>)
    requires
        all_dice_valid(s),
        s.len() > 0,
    ensures
        best_face_upto(s, 6).1 > 0,
{
    let v = s[0];
    assert(s.contains(v));
    lemma_count_contains(s, v);
    lemma_best_face_ge(s, v as int, 6);
}

/// The best count among faces 1..=g dominates the count of any face up to g.
pub proof fn lemma_best_face_ge(s: Seq<i32>, v: int, g: int)
    requires
        1 <= v <= g,
    ensures
        best_face_upto(s, g).1 >= count_val(s, v as i32),
    decreases g,
{
    if v == g {
    } else {
        lemma_best_face_ge(s, v, g - 1);
    }
}

} // verus!
