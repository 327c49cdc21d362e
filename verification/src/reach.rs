//! Deciding whether one node of a render graph reaches another.

use vstd::prelude::*;
use crate::count::{cleared_flags, count_set, lemma_count_bounded, lemma_count_mark};
use crate::topology::{
    edges_in_range, lemma_closed_holds_reachable, lemma_reaches_self, lemma_reaches_step, linked,
    reaches, Edge,
};

verus! {

/// Whether `goal` can be reached from `start` along the edges.
///
/// Marks `start`, then marks the target of every edge whose source is marked,
/// until a whole pass over the edges marks nothing new.
pub fn can_reach(n: usize, edges: &Vec<Edge>, start: usize, goal: usize) -> (r: bool)
    requires
        edges_in_range(n as int, edges@),
        start < n,
        goal < n,
    ensures
        r == reaches(edges@, start as int, goal as int),
{
    let mut seen = cleared_flags(n);
    proof {
        lemma_count_mark(seen@, start as int);
        lemma_reaches_self(edges@, start as int);
    }
    seen.set(start, true);
    let mut count: usize = 1;
    let mut grew = true;
    while grew
        invariant
            seen.len() == n,
            start < n,
            edges_in_range(n as int, edges@),
            seen[start as int],
            count == count_set(seen@),
            forall|v: int| 0 <= v < n && #[trigger] seen[v] ==> reaches(edges@, start as int, v),
            !grew ==> forall|i: int|
                0 <= i < edges.len() && seen[#[trigger] edges[i].src()] ==> seen[edges[i].dst()],
        decreases 2 * (n - count) + if grew { 1int } else { 0int },
    {
        let ghost at_start = seen@;
        let ghost count_at_start = count;
        grew = false;
        let mut i: usize = 0;
        while i < edges.len()
            invariant
                i <= edges.len(),
                seen.len() == n,
                edges_in_range(n as int, edges@),
                seen[start as int],
                count == count_set(seen@),
                forall|v: int| 0 <= v < n && #[trigger] seen[v] ==> reaches(edges@, start as int, v),
                !grew ==> seen@ == at_start && count == count_at_start,
                grew ==> count > count_at_start,
                !grew ==> forall|h: int|
                    0 <= h < i && seen[#[trigger] edges[h].src()] ==> seen[edges[h].dst()],
            decreases edges.len() - i,
        {
            let e = edges[i];
            let a = e.from();
            let b = e.to();
            if seen[a] && !seen[b] {
                proof {
                    lemma_count_mark(seen@, b as int);
                    lemma_count_bounded(seen@.update(b as int, true));
                    assert(linked(edges@, a as int, b as int));
                    lemma_reaches_step(edges@, start as int, a as int, b as int);
                }
                seen.set(b, true);
                count += 1;
                grew = true;
            }
            i += 1;
        }
        proof {
            lemma_count_bounded(seen@);
        }
    }
    proof {
        let flags = seen@;
        let inside = |v: int| 0 <= v < n && flags[v];
        if reaches(edges@, start as int, goal as int) {
            assert(inside(start as int));
            assert forall|i: int| 0 <= i < edges.len() && inside(#[trigger] edges[i].src()) implies inside(
                edges[i].dst(),
            ) by {}
            lemma_closed_holds_reachable(edges@, inside, start as int, goal as int);
        }
    }
    seen[goal]
}

} // verus!
