//! Occurrence counting over sequences of chunk offsets and totals over
//! sequences of reference counters, with the update lemmas the data segment
//! invariant is maintained by.

use vstd::prelude::*;

verus! {

/// Number of occurrences of `x` in `s`.
pub open spec fn count_of(s: Seq<usize>, x: usize) -> nat
    decreases s.len(),
{
    if s.len() == 0 {
        0
    } else {
        count_of(s.drop_last(), x) + (if s.last() == x {
            1nat
        } else {
            0nat
        })
    }
}

/// Sum of a sequence of counters.
pub open spec fn total_of(s: Seq<u64>) -> int
    decreases s.len(),
{
    if s.len() == 0 {
        0
    } else {
        total_of(s.drop_last()) + s.last()
    }
}

/// Appending an element raises exactly its own count by one.
pub proof fn lemma_count_push(s: Seq<usize>, v: usize, x: usize)
    ensures
        count_of(s.push(v), x) == count_of(s, x) + (if v == x {
            1nat
        } else {
            0nat
        }),
{
    assert(s.push(v).drop_last() =~= s);
}

/// Removing the element at `i` lowers exactly its own count by one.
pub proof fn lemma_count_remove(s: Seq<usize>, i: int, x: usize)
    requires
        0 <= i < s.len(),
    ensures
        count_of(s, x) == count_of(s.remove(i), x) + (if s[i] == x {
            1nat
        } else {
            0nat
        }),
    decreases s.len(),
{
    if i == s.len() - 1 {
        assert(s.remove(i) =~= s.drop_last());
    } else {
        assert(s.remove(i).drop_last() =~= s.drop_last().remove(i));
        assert(s.remove(i).last() == s.last());
        lemma_count_remove(s.drop_last(), i, x);
    }
}

/// An element occurs in a sequence exactly when its count is positive.
pub proof fn lemma_count_contains(s: Seq<usize>, x: usize)
    ensures
        s.contains(x) <==> count_of(s, x) >= 1,
    decreases s.len(),
{
    if s.len() > 0 {
        lemma_count_contains(s.drop_last(), x);
        if s.drop_last().contains(x) {
            let k = choose|k: int| 0 <= k < s.drop_last().len() && s.drop_last()[k] == x;
            assert(s[k] == x);
        }
        if s.contains(x) && s.last() != x {
            let k = choose|k: int| 0 <= k < s.len() && s[k] == x;
            assert(s.drop_last()[k] == x);
        }
    }
}

/// Counts add up over concatenation.
pub proof fn lemma_count_concat(a: Seq<usize>, b: Seq<usize>, x: usize)
    ensures
        count_of(a + b, x) == count_of(a, x) + count_of(b, x),
    decreases b.len(),
{
    if b.len() == 0 {
        assert(a + b =~= a);
    } else {
        assert((a + b).drop_last() =~= a + b.drop_last());
        assert((a + b).last() == b.last());
        lemma_count_concat(a, b.drop_last(), x);
    }
}

/// A count never exceeds the sequence's length.
pub proof fn lemma_count_le_len(s: Seq<usize>, x: usize)
    ensures
        count_of(s, x) <= s.len(),
    decreases s.len(),
{
    if s.len() > 0 {
        lemma_count_le_len(s.drop_last(), x);
    }
}

/// The count relation of a push, for every value at once.
pub proof fn lemma_count_relation_push(s: Seq<usize>, v: usize)
    ensures
        forall|x: usize|
            #[trigger] count_of(s.push(v), x) == count_of(s, x) + (if x == v {
                1int
            } else {
                0int
            }),
{
    assert forall|x: usize|
        #[trigger] count_of(s.push(v), x) == count_of(s, x) + (if x == v {
            1int
        } else {
            0int
        }) by {
        lemma_count_push(s, v, x);
    }
}

/// The count relation of a removal, for every value at once.
pub proof fn lemma_count_relation_remove(s: Seq<usize>, k: int)
    requires
        0 <= k < s.len(),
    ensures
        forall|x: usize|
            #[trigger] count_of(s.remove(k), x) == count_of(s, x) - (if x == s[k] {
                1int
            } else {
                0int
            }),
{
    assert forall|x: usize|
        #[trigger] count_of(s.remove(k), x) == count_of(s, x) - (if x == s[k] {
            1int
        } else {
            0int
        }) by {
        lemma_count_remove(s, k, x);
    }
}

/// Updating the counter at `i` moves the total by the difference.
pub proof fn lemma_total_update(s: Seq<u64>, i: int, v: u64)
    requires
        0 <= i < s.len(),
    ensures
        total_of(s.update(i, v)) == total_of(s) - s[i] + v,
    decreases s.len(),
{
    if i == s.len() - 1 {
        assert(s.update(i, v).drop_last() =~= s.drop_last());
        assert(s.update(i, v).last() == v);
    } else {
        assert(s.update(i, v).drop_last() =~= s.drop_last().update(i, v));
        assert(s.update(i, v).last() == s.last());
        lemma_total_update(s.drop_last(), i, v);
    }
}

} // verus!
