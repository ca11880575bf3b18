//! One side's state: the dice pool, the twelve category slots, and the bid
//! ledger, with the placement operation that enforces the pool and category
//! invariants.

use vstd::prelude::*;
use vstd::pervasive::VecAdditionalExecFns;
use crate::dice::{
    all_dice_valid, contained_in, count_in, count_val, lemma_contained_valid, lemma_count_contains,
    lemma_count_take_mono, lemma_count_take_step, lemma_remove_value, lemma_remove_values_push,
    lemma_remove_values_valid, lemma_take_full, remove_values,
};
use crate::rules::{rule_index, score_dice, spec_score, DiceRule};

verus! {

/// A sealed bid: the declared group ('A' or 'B') and the amount.
#[derive(Debug, Clone, Copy)]
pub struct Bid {
    pub group: char,
    pub amount: i32,
}

/// A placement: a category plus the five dice to commit to it.
#[derive(Debug, Clone, Copy)]
pub struct DicePut {
    pub rule: DiceRule,
    pub dice: [i32; 5],
}

/// Why a placement was rejected.
#[derive(Debug, Clone, Copy, PartialEq, Eq, Structural)]
pub enum PlacementError {
    /// The category already holds a score.
    RuleAlreadyUsed,
    /// The pool lacks one of the listed dice, counted with multiplicity.
    InvalidDice,
}

/// One player's state.
pub struct GameState {
    /// The pool: dice obtained but not yet committed, in acquisition order.
    pub dice: Vec<i32>,
    /// Score per category ordinal; `None` until the category is used.
    pub rule_score: Vec<Option<i32>>,
    /// Net gain or loss from bid outcomes.
    pub bid_score: i32,
}

/// Sum of the set scores among slots `from..to` of `rs`.
pub open spec fn sum_scores(rs: Seq<Option<i32>>, from: int, to: int) -> int
    decreases to - from,
{
    if from >= to {
        0
    } else {
        sum_scores(rs, from, to - 1) + match rs[to - 1] {
            Some(s) => s as int,
            None => 0,
        }
    }
}

/// What `use_dice` guarantees, relating the state before and after and the
/// returned outcome. Shared with the match-level wrappers.
pub open spec fn use_dice_post(
    pre: GameState,
    post: GameState,
    put: DicePut,
    r: Result<(), PlacementError>,
) -> bool {
    &&& post.bid_score == pre.bid_score
    &&& match r {
        Ok(()) => {
            &&& pre.rule_score@[rule_index(put.rule)] is None
            &&& contained_in(put.dice@, pre.dice@)
            &&& post.dice@ == remove_values(pre.dice@, put.dice@)
            &&& post.dice@.len() == pre.dice@.len() - 5
            &&& forall|v: i32| #[trigger] count_val(post.dice@, v) == count_val(pre.dice@, v)
                - count_val(put.dice@, v)
            &&& post.rule_score@ == pre.rule_score@.update(
                rule_index(put.rule),
                Some(spec_score(put.rule, put.dice@) as i32),
            )
        },
        Err(PlacementError::RuleAlreadyUsed) => {
            &&& pre.rule_score@[rule_index(put.rule)] is Some
            &&& post == pre
        },
        Err(PlacementError::InvalidDice) => {
            &&& pre.rule_score@[rule_index(put.rule)] is None
            &&& !contained_in(put.dice@, pre.dice@)
            &&& post == pre
        },
    }
}

impl GameState {
    /// Well-formedness: twelve category slots, set scores within the range a
    /// single category can pay, and only valid die faces in the pool.
    pub open spec fn wf(&self) -> bool {
        &&& self.rule_score@.len() == 12
        &&& all_dice_valid(self.dice@)
        &&& forall|i: int|
            0 <= i < 12 ==> ((#[trigger] self.rule_score@[i]) matches Some(s) ==> 0 <= s <= 50000)
    }

    pub open spec fn spec_basic(&self) -> int {
        sum_scores(self.rule_score@, 0, 6)
    }

    pub open spec fn spec_bonus(&self) -> int {
        if self.spec_basic() >= 63000 {
            35000
        } else {
            0
        }
    }

    pub open spec fn spec_combination(&self) -> int {
        sum_scores(self.rule_score@, 6, 12)
    }

    pub open spec fn spec_total(&self) -> int {
        self.spec_basic() + self.spec_bonus() + self.spec_combination() + self.bid_score
    }

    /// A fresh state: empty pool, all categories unset, ledger zero.
    pub fn new() -> (s: GameState)
        ensures
            s.wf(),
            s.dice@.len() == 0,
            s.rule_score@.len() == 12,
            forall|i: int| 0 <= i < 12 ==> (#[trigger] s.rule_score@[i]) is None,
            s.bid_score == 0,
    {
        let mut rule_score: Vec<Option<i32>> = Vec::new();
        let mut i: usize = 0;
        while i < 12
            invariant
                i <= 12,
                rule_score@.len() == i,
                forall|j: int| 0 <= j < i ==> (#[trigger] rule_score@[j]) is None,
            decreases 12 - i,
        {
            rule_score.push(None);
            i = i + 1;
        }
        GameState { dice: Vec::new(), rule_score, bid_score: 0 }
    }

    /// Total score: top-section sum, the 35000 bonus once that sum reaches
    /// 63000, the combination-section sum, and the bid ledger.
    pub fn get_total_score(&self) -> (total: i32)
        requires
            self.wf(),
            self.bid_score <= i32::MAX - 700000,
        ensures
            total == self.spec_total(),
    {
        let mut basic: i32 = 0;
        let mut i: usize = 0;
        while i < 6
            invariant
                i <= 6,
                self.wf(),
                basic == sum_scores(self.rule_score@, 0, i as int),
                0 <= basic <= 50000 * i,
            decreases 6 - i,
        {
            match self.rule_score[i] {
                Some(s) => {
                    basic = basic + s;
                },
                None => {},
            }
            i = i + 1;
        }
        let bonus: i32 = if basic >= 63000 {
            35000
        } else {
            0
        };
        let mut combination: i32 = 0;
        let mut j: usize = 6;
        while j < 12
            invariant
                6 <= j <= 12,
                self.wf(),
                combination == sum_scores(self.rule_score@, 6, j as int),
                0 <= combination <= 50000 * (j - 6),
            decreases 12 - j,
        {
            match self.rule_score[j] {
                Some(s) => {
                    combination = combination + s;
                },
                None => {},
            }
            j = j + 1;
        }
        basic + bonus + combination + self.bid_score
    }

    /// Applies one bid outcome to the ledger: a successful bid pays its
    /// amount, a failed one is credited with it.
    pub fn bid(&mut self, is_successful: bool, amount: i32)
        requires
            is_successful ==> i32::MIN <= old(self).bid_score - amount <= i32::MAX,
            !is_successful ==> i32::MIN <= old(self).bid_score + amount <= i32::MAX,
        ensures
            is_successful ==> final(self).bid_score == old(self).bid_score - amount,
            !is_successful ==> final(self).bid_score == old(self).bid_score + amount,
            final(self).dice@ == old(self).dice@,
            final(self).rule_score@ == old(self).rule_score@,
    {
        if is_successful {
            self.bid_score = self.bid_score - amount;
        } else {
            self.bid_score = self.bid_score + amount;
        }
    }

    /// Appends newly obtained dice to the pool.
    pub fn add_dice(&mut self, new_dice: &[i32])
        requires
            all_dice_valid(new_dice@),
        ensures
            final(self).dice@ == old(self).dice@ + new_dice@,
            final(self).rule_score@ == old(self).rule_score@,
            final(self).bid_score == old(self).bid_score,
            old(self).wf() ==> final(self).wf(),
    {
        let mut i: usize = 0;
        while i < new_dice.len()
            invariant
                i <= new_dice@.len(),
                all_dice_valid(new_dice@),
                self.dice@ == old(self).dice@ + new_dice@.take(i as int),
                self.rule_score@ == old(self).rule_score@,
                self.bid_score == old(self).bid_score,
            decreases new_dice@.len() - i,
        {
            self.dice.push(new_dice[i]);
            proof {
                assert(old(self).dice@ + new_dice@.take(i + 1 as int) =~= (old(self).dice@
                    + new_dice@.take(i as int)).push(new_dice@[i as int]));
            }
            i = i + 1;
        }
        proof {
            lemma_take_full(new_dice@);
            assert(self.dice@ =~= old(self).dice@ + new_dice@);
            if old(self).wf() {
                assert forall|k: int| 0 <= k < self.dice@.len() implies 1 <= #[trigger] self.dice@[k]
                    <= 6 by {
                    if k < old(self).dice@.len() {
                        assert(self.dice@[k] == old(self).dice@[k]);
                    } else {
                        assert(self.dice@[k] == new_dice@[k - old(self).dice@.len()]);
                    }
                }
            }
        }
    }

    /// Commits five dice from the pool to a category: rejects a category that
    /// is already set, rejects dice the pool cannot supply with multiplicity
    /// (leaving the state untouched either way), and otherwise removes the
    /// first occurrence of each listed die and records the score.
    pub fn use_dice(&mut self, put: &DicePut) -> (r: Result<(), PlacementError>)
        requires
            old(self).wf(),
        ensures
            use_dice_post(*old(self), *final(self), *put, r),
            r is Ok ==> final(self).wf(),
    {
        let idx = put.rule.to_index();
        if self.rule_score[idx].is_some() {
            return Err(PlacementError::RuleAlreadyUsed);
        }
        // Check multiplicity before touching the pool, so failure mutates nothing.
        let mut k: usize = 0;
        while k < 5
            invariant
                k <= 5,
                *self == *old(self),
                old(self).rule_score@[rule_index(put.rule)] is None,
                forall|j: int|
                    0 <= j < k ==> count_val(put.dice@, #[trigger] put.dice@[j]) <= count_val(
                        old(self).dice@,
                        put.dice@[j],
                    ),
            decreases 5 - k,
        {
            let d = put.dice[k];
            let needed = count_in(put.dice.as_slice(), d);
            let have = count_in(self.dice.as_slice(), d);
            if needed > have {
                proof {
                    assert(!contained_in(put.dice@, old(self).dice@));
                }
                return Err(PlacementError::InvalidDice);
            }
            k = k + 1;
        }
        proof {
            assert forall|v: i32| #[trigger] count_val(put.dice@, v) <= count_val(
                old(self).dice@,
                v,
            ) by {
                if count_val(put.dice@, v) > 0 {
                    lemma_count_contains(put.dice@, v);
                    let j = choose|j: int| 0 <= j < put.dice@.len() && put.dice@[j] == v;
                    assert(count_val(put.dice@, put.dice@[j]) <= count_val(
                        old(self).dice@,
                        put.dice@[j],
                    ));
                }
            }
        }
        // Remove the first occurrence of each listed die, in order.
        let mut k2: usize = 0;
        while k2 < 5
            invariant
                k2 <= 5,
                old(self).wf(),
                old(self).rule_score@[rule_index(put.rule)] is None,
                contained_in(put.dice@, old(self).dice@),
                self.dice@ == remove_values(old(self).dice@, put.dice@.take(k2 as int)),
                self.dice@.len() == old(self).dice@.len() - k2,
                forall|v: i32| #[trigger] count_val(self.dice@, v) == count_val(old(self).dice@, v)
                    - count_val(put.dice@.take(k2 as int), v),
                self.rule_score@ == old(self).rule_score@,
                self.bid_score == old(self).bid_score,
            decreases 5 - k2,
        {
            let d = put.dice[k2];
            proof {
                lemma_count_take_step(put.dice@, k2 as int, d);
                lemma_count_take_mono(put.dice@, k2 + 1 as int, 5, d);
                lemma_take_full(put.dice@);
                assert(count_val(self.dice@, d) > 0);
                lemma_count_contains(self.dice@, d);
            }
            let ghost pre_pool = self.dice@;
            let mut pos: usize = 0;
            while pos < self.dice.len() && self.dice[pos] != d
                invariant
                    pos <= self.dice@.len(),
                    self.dice@ == pre_pool,
                    forall|j: int| 0 <= j < pos ==> #[trigger] self.dice@[j] != d,
                decreases self.dice@.len() - pos,
            {
                pos = pos + 1;
            }
            proof {
                if pos == self.dice@.len() {
                    lemma_count_contains(pre_pool, d);
                    let w = choose|w: int| 0 <= w < pre_pool.len() && pre_pool[w] == d;
                    assert(false);
                }
                pre_pool.index_of_first_ensures(d);
                lemma_count_contains(pre_pool, d);
                let first = pre_pool.index_of_first(d).unwrap();
                assert(pre_pool[first] == d);
                assert(first >= pos) by {
                    if first < pos {
                        assert(pre_pool[first] != d);
                    }
                }
                assert(first <= pos) by {
                    if first > pos {
                        assert(pre_pool[pos as int] != d);
                    }
                }
                assert(pre_pool.index_of_first(d) == Some(pos as int));
            }
            self.dice.remove(pos);
            proof {
                assert(self.dice@ == pre_pool.remove_value(d));
                lemma_remove_values_push(old(self).dice@, put.dice@.take(k2 as int), d);
                assert(put.dice@.take(k2 + 1 as int) =~= put.dice@.take(k2 as int).push(d));
                lemma_remove_value(pre_pool, d);
                assert forall|v: i32| #[trigger] count_val(self.dice@, v) == count_val(
                    old(self).dice@,
                    v,
                ) - count_val(put.dice@.take(k2 + 1 as int), v) by {
                    lemma_count_take_step(put.dice@, k2 as int, v);
                }
            }
            k2 = k2 + 1;
        }
        proof {
            lemma_take_full(put.dice@);
            lemma_remove_values_valid(old(self).dice@, put.dice@);
            lemma_contained_valid(put.dice@, old(self).dice@);
        }
        let score = score_dice(put.dice.as_slice(), put.rule);
        self.rule_score.set(idx, Some(score));
        Ok(())
    }

    /// Scores a placement; pure evaluation, no state involved.
    pub fn calculate_score(put: &DicePut) -> (score: i32)
        requires
            all_dice_valid(put.dice@),
        ensures
            score == spec_score(put.rule, put.dice@),
            0 <= score <= 50000,
    {
        score_dice(put.dice.as_slice(), put.rule)
    }
}

} // verus!
