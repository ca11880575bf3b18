//! Counting and summing over sequences of die values, with the lemmas the
//! rest of the library needs to reason about pools as multisets.

use vstd::prelude::*;

verus! {

/// Number of occurrences of `v` in `s`.
pub open spec fn count_val(s: Seq<i32>, v: i32) -> nat
    decreases s.len(),
{
    if s.len() == 0 {
        0
    } else {
        count_val(s.drop_last(), v) + if s.last() == v {
            1nat
        } else {
            0nat
        }
    }
}

/// Sum of all entries of `s`.
pub open spec fn sum_of(s: Seq<i32>) -> int
    decreases s.len(),
{
    if s.len() == 0 {
        0
    } else {
        sum_of(s.drop_last()) + s.last()
    }
}

/// Every entry of `s` is a die face, i.e. lies in [1, 6].
pub open spec fn all_dice_valid(s: Seq<i32>) -> bool {
    forall|i: int| 0 <= i < s.len() ==> 1 <= #[trigger] s[i] <= 6
}

/// `small` occurs in `big` with sufficient multiplicity for every value.
pub open spec fn contained_in(small: Seq<i32>, big: Seq<i32>) -> bool {
    forall|v: i32| #[trigger] count_val(small, v) <= count_val(big, v)
}

/// The first `n` entries of `s`, or all of `s` when it is shorter than `n`.
pub open spec fn take_upto(s: Seq<i32>, n: int) -> Seq<i32> {
    if s.len() <= n {
        s
    } else {
        s.take(n)
    }
}

/// The subsequence of entries of `s` equal to `v`, in order.
pub open spec fn keep_eq(s: Seq<i32>, v: i32) -> Seq<i32>
    decreases s.len(),
{
    if s.len() == 0 {
        Seq::empty()
    } else {
        keep_eq(s.drop_last(), v) + if s.last() == v {
            seq![s.last()]
        } else {
            Seq::empty()
        }
    }
}

/// The subsequence of entries of `s` different from `v`, in order.
pub open spec fn keep_ne(s: Seq<i32>, v: i32) -> Seq<i32>
    decreases s.len(),
{
    if s.len() == 0 {
        Seq::empty()
    } else {
        keep_ne(s.drop_last(), v) + if s.last() != v {
            seq![s.last()]
        } else {
            Seq::empty()
        }
    }
}

/// `s` with the first occurrence of each entry of `picks` removed, in the
/// order the entries of `picks` are listed.
pub open spec fn remove_values(s: Seq<i32>, picks: Seq<i32>) -> Seq<i32>
    decreases picks.len(),
{
    if picks.len() == 0 {
        s
    } else {
        remove_values(s.remove_value(picks[0]), picks.drop_first())
    }
}

pub proof fn lemma_count_le_len(s: Seq<i32>, v: i32)
    ensures
        count_val(s, v) <= s.len(),
    decreases s.len(),
{
    if s.len() > 0 {
        lemma_count_le_len(s.drop_last(), v);
    }
}

pub proof fn lemma_count_contains(s: Seq<i32>, v: i32)
    ensures
        count_val(s, v) > 0 <==> s.contains(v),
    decreases s.len(),
{
    if s.len() > 0 {
        lemma_count_contains(s.drop_last(), v);
        if s.last() == v {
            assert(s[s.len() - 1] == v);
        }
        if count_val(s, v) == 0 && s.contains(v) {
            let i = choose|i: int| 0 <= i < s.len() && s[i] == v;
            assert(i < s.len() - 1);
            assert(s.drop_last()[i] == v);
        }
        if s.drop_last().contains(v) {
            let i = choose|i: int| 0 <= i < s.drop_last().len() && s.drop_last()[i] == v;
            assert(s[i] == v);
        }
    }
}

/// Counting one more prefix entry adds one exactly when that entry is `v`.
pub proof fn lemma_count_take_step(s: Seq<i32>, k: int, v: i32)
    requires
        0 <= k < s.len(),
    ensures
        count_val(s.take(k + 1), v) == count_val(s.take(k), v) + if s[k] == v {
            1int
        } else {
            0int
        },
{
    assert(s.take(k + 1).drop_last() =~= s.take(k));
    assert(s.take(k + 1).last() == s[k]);
}

pub proof fn lemma_sum_take_step(s: Seq<i32>, k: int)
    requires
        0 <= k < s.len(),
    ensures
        sum_of(s.take(k + 1)) == sum_of(s.take(k)) + s[k],
{
    assert(s.take(k + 1).drop_last() =~= s.take(k));
    assert(s.take(k + 1).last() == s[k]);
}

pub proof fn lemma_take_full(s: Seq<i32>)
    ensures
        s.take(s.len() as int) == s,
{
    assert(s.take(s.len() as int) =~= s);
}

/// Counts never shrink as the prefix grows.
pub proof fn lemma_count_take_mono(s: Seq<i32>, k: int, m: int, v: i32)
    requires
        0 <= k <= m <= s.len(),
    ensures
        count_val(s.take(k), v) <= count_val(s.take(m), v),
    decreases m - k,
{
    if k < m {
        lemma_count_take_step(s, m - 1, v);
        lemma_count_take_mono(s, k, m - 1, v);
    }
}

pub proof fn lemma_count_concat(a: Seq<i32>, b: Seq<i32>, v: i32)
    ensures
        count_val(a + b, v) == count_val(a, v) + count_val(b, v),
    decreases b.len(),
{
    if b.len() == 0 {
        assert(a + b =~= a);
    } else {
        assert((a + b).drop_last() =~= a + b.drop_last());
        assert((a + b).last() == b.last());
        lemma_count_concat(a, b.drop_last(), v);
    }
}

/// A sequence of die faces sums to something between its length and six
/// times its length.
pub proof fn lemma_sum_bounds(s: Seq<i32>)
    requires
        all_dice_valid(s),
    ensures
        s.len() <= sum_of(s) <= 6 * s.len(),
    decreases s.len(),
{
    if s.len() > 0 {
        assert(all_dice_valid(s.drop_last())) by {
            assert(forall|i: int|
                0 <= i < s.drop_last().len() ==> #[trigger] s.drop_last()[i] == s[i]);
        }
        lemma_sum_bounds(s.drop_last());
        assert(1 <= s[s.len() - 1] <= 6);
    }
}

/// Removing the entry at index `i` lowers the count of `s[i]` by one and
/// leaves every other count unchanged.
pub proof fn lemma_count_remove(s: Seq<i32>, i: int, v: i32)
    requires
        0 <= i < s.len(),
    ensures
        count_val(s.remove(i), v) == count_val(s, v) - if s[i] == v {
            1int
        } else {
            0int
        },
    decreases s.len(),
{
    if i == s.len() - 1 {
        assert(s.remove(i) =~= s.drop_last());
    } else {
        assert(s.remove(i).drop_last() =~= s.drop_last().remove(i));
        assert(s.remove(i).last() == s.last());
        lemma_count_remove(s.drop_last(), i, v);
    }
}

/// Effect of removing the first occurrence of a value that is present.
pub proof fn lemma_remove_value(s: Seq<i32>, v: i32)
    requires
        count_val(s, v) > 0,
    ensures
        s.remove_value(v).len() == s.len() - 1,
        forall|w: i32| #[trigger] count_val(s.remove_value(v), w) == count_val(s, w) - if w == v {
            1int
        } else {
            0int
        },
{
    lemma_count_contains(s, v);
    s.index_of_first_ensures(v);
    let i = s.index_of_first(v).unwrap();
    assert forall|w: i32| #[trigger] count_val(s.remove_value(v), w) == count_val(s, w) - if w == v {
        1int
    } else {
        0int
    } by {
        lemma_count_remove(s, i, w);
    }
}

/// Entries of `s.remove_value(v)` are entries of `s`, so face validity
/// carries over.
pub proof fn lemma_remove_value_valid(s: Seq<i32>, v: i32)
    requires
        all_dice_valid(s),
        count_val(s, v) > 0,
    ensures
        all_dice_valid(s.remove_value(v)),
{
    lemma_count_contains(s, v);
    s.index_of_first_ensures(v);
    let i = s.index_of_first(v).unwrap();
    let r = s.remove(i);
    assert forall|j: int| 0 <= j < r.len() implies 1 <= #[trigger] r[j] <= 6 by {
        if j < i {
            assert(r[j] == s[j]);
        } else {
            assert(r[j] == s[j + 1]);
        }
    }
}

/// Folding one more pick onto the end of `picks`.
pub proof fn lemma_remove_values_push(s: Seq<i32>, picks: Seq<i32>, x: i32)
    ensures
        remove_values(s, picks.push(x)) == remove_values(s, picks).remove_value(x),
    decreases picks.len(),
{
    if picks.len() == 0 {
        assert(picks.push(x).drop_first() =~= Seq::<i32>::empty());
        assert(picks.push(x)[0] == x);
        assert(remove_values(s.remove_value(x), Seq::<i32>::empty()) == s.remove_value(x));
        assert(remove_values(s, picks) == s);
    } else {
        assert(picks.push(x).drop_first() =~= picks.drop_first().push(x));
        assert(picks.push(x)[0] == picks[0]);
        lemma_remove_values_push(s.remove_value(picks[0]), picks.drop_first(), x);
        assert(remove_values(s, picks.push(x)) == remove_values(
            s.remove_value(picks[0]),
            picks.drop_first().push(x),
        ));
        assert(remove_values(s, picks) == remove_values(s.remove_value(picks[0]), picks.drop_first()));
    }
}

/// A single pick relates the counts of a sequence and its first entry.
proof fn lemma_picks_head_count(picks: Seq<i32>, w: i32)
    requires
        picks.len() > 0,
    ensures
        count_val(picks, w) == count_val(picks.drop_first(), w) + if picks[0] == w {
            1int
        } else {
            0int
        },
{
    assert(picks =~= seq![picks[0]] + picks.drop_first());
    lemma_count_concat(seq![picks[0]], picks.drop_first(), w);
    assert(seq![picks[0]].drop_last() =~= Seq::<i32>::empty());
    assert(count_val(Seq::<i32>::empty(), w) == 0);
    assert(seq![picks[0]].last() == picks[0]);
    assert(count_val(seq![picks[0]], w) == if picks[0] == w {
        1int
    } else {
        0int
    });
}

/// Removing a contained multiset of picks subtracts its counts exactly.
pub proof fn lemma_remove_values_counts(s: Seq<i32>, picks: Seq<i32>)
    requires
        contained_in(picks, s),
    ensures
        remove_values(s, picks).len() == s.len() - picks.len(),
        forall|w: i32| #[trigger] count_val(remove_values(s, picks), w) == count_val(s, w)
            - count_val(picks, w),
    decreases picks.len(),
{
    if picks.len() == 0 {
    } else {
        let v = picks[0];
        assert(count_val(picks, v) > 0) by {
            lemma_picks_head_count(picks, v);
        }
        assert(count_val(s, v) > 0);
        lemma_remove_value(s, v);
        let s1 = s.remove_value(v);
        assert(contained_in(picks.drop_first(), s1)) by {
            assert forall|w: i32| #[trigger] count_val(picks.drop_first(), w) <= count_val(s1, w) by {
                lemma_picks_head_count(picks, w);
            }
        }
        lemma_remove_values_counts(s1, picks.drop_first());
        assert forall|w: i32| #[trigger] count_val(remove_values(s, picks), w) == count_val(s, w)
            - count_val(picks, w) by {
            lemma_picks_head_count(picks, w);
        }
    }
}

/// Face validity survives removing contained picks.
pub proof fn lemma_remove_values_valid(s: Seq<i32>, picks: Seq<i32>)
    requires
        all_dice_valid(s),
        contained_in(picks, s),
    ensures
        all_dice_valid(remove_values(s, picks)),
    decreases picks.len(),
{
    if picks.len() > 0 {
        let v = picks[0];
        assert(count_val(picks, v) > 0) by {
            lemma_picks_head_count(picks, v);
        }
        assert(count_val(s, v) > 0);
        lemma_remove_value(s, v);
        lemma_remove_value_valid(s, v);
        let s1 = s.remove_value(v);
        assert(contained_in(picks.drop_first(), s1)) by {
            assert forall|w: i32| #[trigger] count_val(picks.drop_first(), w) <= count_val(s1, w) by {
                lemma_picks_head_count(picks, w);
            }
        }
        lemma_remove_values_valid(s1, picks.drop_first());
    }
}

/// If `small` is contained in a sequence of valid faces, its own entries are
/// valid faces.
pub proof fn lemma_contained_valid(small: Seq<i32>, big: Seq<i32>)
    requires
        all_dice_valid(big),
        contained_in(small, big),
    ensures
        all_dice_valid(small),
{
    assert forall|i: int| 0 <= i < small.len() implies 1 <= #[trigger] small[i] <= 6 by {
        let v = small[i];
        assert(small.contains(v));
        lemma_count_contains(small, v);
        assert(count_val(big, v) > 0);
        lemma_count_contains(big, v);
        let j = choose|j: int| 0 <= j < big.len() && big[j] == v;
        assert(1 <= big[j] <= 6);
    }
}

pub proof fn lemma_keep_len(s: Seq<i32>, v: i32)
    ensures
        keep_eq(s, v).len() + keep_ne(s, v).len() == s.len(),
    decreases s.len(),
{
    if s.len() > 0 {
        lemma_keep_len(s.drop_last(), v);
    }
}

/// `keep_eq` keeps exactly the occurrences of `v`.
pub proof fn lemma_keep_eq_elems(s: Seq<i32>, v: i32)
    ensures
        forall|j: int| 0 <= j < keep_eq(s, v).len() ==> #[trigger] keep_eq(s, v)[j] == v,
    decreases s.len(),
{
    if s.len() > 0 {
        lemma_keep_eq_elems(s.drop_last(), v);
        let pre = keep_eq(s.drop_last(), v);
        assert forall|j: int| 0 <= j < keep_eq(s, v).len() implies #[trigger] keep_eq(s, v)[j]
            == v by {
            if j < pre.len() {
                assert(keep_eq(s, v)[j] == pre[j]);
            }
        }
    }
}

/// Entries of `keep_ne` are entries of `s`, so face validity carries over.
pub proof fn lemma_keep_ne_valid(s: Seq<i32>, v: i32)
    requires
        all_dice_valid(s),
    ensures
        all_dice_valid(keep_ne(s, v)),
    decreases s.len(),
{
    if s.len() > 0 {
        assert(all_dice_valid(s.drop_last())) by {
            assert(forall|i: int|
                0 <= i < s.drop_last().len() ==> #[trigger] s.drop_last()[i] == s[i]);
        }
        lemma_keep_ne_valid(s.drop_last(), v);
        assert(1 <= s.last() <= 6);
    }
}

pub proof fn lemma_take_upto_props(s: Seq<i32>, n: int)
    requires
        0 <= n,
    ensures
        take_upto(s, n).len() == if s.len() <= n {
            s.len() as int
        } else {
            n
        },
        forall|j: int| 0 <= j < take_upto(s, n).len() ==> #[trigger] take_upto(s, n)[j] == s[j],
{
}

/// Appending one entry extends a bounded prefix only while it is short.
pub proof fn lemma_take_upto_push(s: Seq<i32>, x: i32, n: int)
    requires
        0 <= n,
    ensures
        take_upto(s + seq![x], n) == if s.len() < n {
            take_upto(s, n).push(x)
        } else {
            take_upto(s, n)
        },
{
    if s.len() < n {
        assert(take_upto(s + seq![x], n) =~= take_upto(s, n).push(x));
    } else {
        assert(take_upto(s + seq![x], n) =~= take_upto(s, n));
    }
}

/// Counts occurrences of `v` in the slice `s`.
pub fn count_in(s: &[i32], v: i32) -> (n: usize)
    ensures
        n == count_val(s@, v),
{
    let mut n: usize = 0;
    let mut i: usize = 0;
    while i < s.len()
        invariant
            0 <= i <= s@.len(),
            n <= i,
            n == count_val(s@.take(i as int), v),
        decreases s@.len() - i,
    {
        proof {
            lemma_count_take_step(s@, i as int, v);
        }
        if s[i] == v {
            n = n + 1;
        }
        i = i + 1;
    }
    proof {
        lemma_take_full(s@);
    }
    n
}

/// Sums a group of five die faces; the result lies in [5, 30].
pub fn sum_dice(s: &[i32]) -> (total: i32)
    requires
        s@.len() == 5,
        all_dice_valid(s@),
    ensures
        total == sum_of(s@),
        5 <= total <= 30,
{
    let mut total: i32 = 0;
    let mut i: usize = 0;
    while i < s.len()
        invariant
            0 <= i <= s@.len(),
            s@.len() == 5,
            all_dice_valid(s@),
            total == sum_of(s@.take(i as int)),
            i <= total <= 6 * i,
        decreases s@.len() - i,
    {
        proof {
            lemma_sum_take_step(s@, i as int);
        }
        total = total + s[i];
        i = i + 1;
    }
    proof {
        lemma_take_full(s@);
    }
    total
}

} // verus!
