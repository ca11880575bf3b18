//! The dice-flow law of a well-formed session: each round delivers five dice
//! and each placement consumes five, so the pool holds exactly five dice
//! right before every placement and none right after, and across the match
//! as many dice enter the pool as leave it (sixty in twelve rounds).

use vstd::prelude::*;
use crate::dice::{contained_in, lemma_remove_values_counts, remove_values};

verus! {

/// The pool after `k` complete rounds, where round `j` first adds the group
/// `groups[j]` and then removes the placement `puts[j]`. This is exactly the
/// transformation `add_dice` followed by a successful `use_dice` performs on
/// the pool view.
pub open spec fn session_pool(groups: Seq<Seq<i32>>, puts: Seq<Seq<i32>>, k: int) -> Seq<i32>
    decreases k,
{
    if k <= 0 {
        Seq::empty()
    } else {
        remove_values(session_pool(groups, puts, k - 1) + groups[k - 1], puts[k - 1])
    }
}

/// Total number of dice in the first `k` entries of `lists`.
pub open spec fn total_len(lists: Seq<Seq<i32>>, k: int) -> int
    decreases k,
{
    if k <= 0 {
        0
    } else {
        total_len(lists, k - 1) + lists[k - 1].len()
    }
}

/// Over a well-formed session — every group and every placement holds five
/// dice, and every placement is available in the pool of its round with
/// multiplicity — the pool is empty at every round boundary, holds exactly
/// five dice right before each placement, and the cumulative number of dice
/// added equals the cumulative number removed: five per round, sixty over
/// twelve rounds.
pub proof fn lemma_session_dice_balance(groups: Seq<Seq<i32>>, puts: Seq<Seq<i32>>, rounds: int)
    requires
        0 <= rounds <= groups.len(),
        rounds <= puts.len(),
        forall|k: int| 0 <= k < rounds ==> (#[trigger] groups[k]).len() == 5,
        forall|k: int| 0 <= k < rounds ==> (#[trigger] puts[k]).len() == 5,
        forall|k: int|
            0 <= k < rounds ==> contained_in(
                #[trigger] puts[k],
                session_pool(groups, puts, k) + groups[k],
            ),
    ensures
        forall|k: int| 0 <= k <= rounds ==> (#[trigger] session_pool(groups, puts, k)).len() == 0,
        forall|k: int|
            0 <= k < rounds ==> (#[trigger] (session_pool(groups, puts, k) + groups[k])).len()
                == 5,
        total_len(groups, rounds) == 5 * rounds,
        total_len(puts, rounds) == 5 * rounds,
    decreases rounds,
{
    if rounds > 0 {
        lemma_session_dice_balance(groups, puts, rounds - 1);
        let before = session_pool(groups, puts, rounds - 1) + groups[rounds - 1];
        lemma_remove_values_counts(before, puts[rounds - 1]);
        assert(session_pool(groups, puts, rounds).len() == 0);
    }
}

} // verus!
