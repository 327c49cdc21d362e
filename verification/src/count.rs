//! Counting the marked entries of a sequence of flags.

use vstd::prelude::*;

verus! {

/// Number of `true` entries in `flags`.
pub open spec fn count_set(flags: Seq<bool>) -> nat
    decreases flags.len(),
{
    if flags.len() == 0 {
        0
    } else {
        count_set(flags.drop_last()) + if flags.last() { 1nat } else { 0nat }
    }
}

/// The count never exceeds the length.
pub proof fn lemma_count_bounded(flags: Seq<bool>)
    ensures
        count_set(flags) <= flags.len(),
    decreases flags.len(),
{
    if flags.len() > 0 {
        lemma_count_bounded(flags.drop_last());
    }
}

/// A sequence whose count is below its length has an unmarked entry.
pub proof fn lemma_count_below_len(flags: Seq<bool>) -> (i: int)
    requires
        count_set(flags) < flags.len(),
    ensures
        0 <= i < flags.len(),
        !flags[i],
    decreases flags.len(),
{
    if flags.last() {
        let j = lemma_count_below_len(flags.drop_last());
        j
    } else {
        flags.len() - 1
    }
}

/// A sequence whose count equals its length has every entry marked.
pub proof fn lemma_count_full(flags: Seq<bool>)
    requires
        count_set(flags) == flags.len(),
    ensures
        forall|i: int| 0 <= i < flags.len() ==> flags[i],
    decreases flags.len(),
{
    if flags.len() > 0 {
        lemma_count_bounded(flags.drop_last());
        lemma_count_full(flags.drop_last());
        assert forall|i: int| 0 <= i < flags.len() implies flags[i] by {
            if i < flags.len() - 1 {
                assert(flags.drop_last()[i]);
            }
        }
    }
}

/// Marking one unmarked entry raises the count by one.
pub proof fn lemma_count_mark(flags: Seq<bool>, i: int)
    requires
        0 <= i < flags.len(),
        !flags[i],
    ensures
        count_set(flags.update(i, true)) == count_set(flags) + 1,
    decreases flags.len(),
{
    let marked = flags.update(i, true);
    if i == flags.len() - 1 {
        assert(marked.drop_last() =~= flags.drop_last());
    } else {
        lemma_count_mark(flags.drop_last(), i);
        assert(marked.drop_last() =~= flags.drop_last().update(i, true));
    }
}

/// A sequence without a marked entry counts zero.
pub proof fn lemma_count_none(flags: Seq<bool>)
    requires
        forall|i: int| 0 <= i < flags.len() ==> !flags[i],
    ensures
        count_set(flags) == 0,
    decreases flags.len(),
{
    if flags.len() > 0 {
        assert forall|i: int| 0 <= i < flags.drop_last().len() implies !flags.drop_last()[i] by {
            assert(!flags[i]);
        }
        lemma_count_none(flags.drop_last());
    }
}

/// `n` flags, none of them set.
pub fn cleared_flags(n: usize) -> (flags: Vec<bool>)
    ensures
        flags.len() == n,
        forall|i: int| 0 <= i < n ==> !flags[i],
        count_set(flags@) == 0,
{
    let mut flags: Vec<bool> = Vec::new();
    while flags.len() < n
        invariant
            flags.len() <= n,
            forall|i: int| 0 <= i < flags.len() ==> !flags[i],
        decreases n - flags.len(),
    {
        flags.push(false);
    }
    proof {
        lemma_count_none(flags@);
    }
    flags
}

} // verus!
