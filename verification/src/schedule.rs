//! The linear schedule of a render graph: which order of the nodes it is, why
//! it is the only one, and how it is computed.

use vstd::prelude::*;
use crate::count::{
    cleared_flags, count_set, lemma_count_below_len, lemma_count_full, lemma_count_mark,
    lemma_count_none,
};
use crate::topology::{acyclic, edges_in_range, respects, Edge};

verus! {

/// Node `v` stands among the first `k` entries of `s`.
pub open spec fn placed(s: Seq<usize>, k: int, v: int) -> bool {
    exists|j: int| 0 <= j < k && #[trigger] s[j] == v
}

/// After the first `k` entries of `s`, node `v` is eligible: it has not run,
/// and every node it depends on has.
pub open spec fn ready(edges: Seq<Edge>, s: Seq<usize>, k: int, v: int) -> bool {
    &&& !placed(s, k, v)
    &&& forall|i: int|
        0 <= i < edges.len() && #[trigger] edges[i].dst() == v ==> placed(s, k, edges[i].src())
}

/// Entry `k` of `s` is the eligible node that was inserted first, that is, the
/// one with the smallest index.
pub open spec fn picks_first_ready(n: int, edges: Seq<Edge>, s: Seq<usize>, k: int) -> bool {
    &&& s[k] < n
    &&& ready(edges, s, k, s[k] as int)
    &&& forall|v: int| 0 <= v < s[k] ==> !#[trigger] ready(edges, s, k, v)
}

/// `s` is the schedule of the graph with `n` nodes and these edges: it has `n`
/// entries, and each is the first eligible node after those before it.
pub open spec fn is_schedule(n: int, edges: Seq<Edge>, s: Seq<usize>) -> bool {
    &&& s.len() == n
    &&& forall|k: int| 0 <= k < n ==> #[trigger] picks_first_ready(n, edges, s, k)
}

/// The flags that mark the nodes among the first `k` entries of `s`.
pub open spec fn marks(n: int, s: Seq<usize>, k: int) -> Seq<bool> {
    Seq::new(n as nat, |v: int| placed(s, k, v))
}

proof fn lemma_marks_count(n: int, edges: Seq<Edge>, s: Seq<usize>, k: int)
    requires
        is_schedule(n, edges, s),
        0 <= k <= n,
    ensures
        count_set(marks(n, s, k)) == k,
    decreases k,
{
    if k == 0 {
        lemma_count_none(marks(n, s, 0));
    } else {
        lemma_marks_count(n, edges, s, k - 1);
        assert(picks_first_ready(n, edges, s, k - 1));
        let before = marks(n, s, k - 1);
        let v = s[k - 1] as int;
        lemma_count_mark(before, v);
        assert(marks(n, s, k) =~= before.update(v, true)) by {
            assert forall|u: int| 0 <= u < n implies marks(n, s, k)[u] == before.update(v, true)[u] by {
                if u == v {
                    assert(s[k - 1] == u);
                } else if placed(s, k, u) {
                    let j = choose|j: int| 0 <= j < k && #[trigger] s[j] == u;
                    assert(j < k - 1);
                }
            }
        }
    }
}

/// The schedule holds every node exactly once, and the source of every edge
/// before its target.
pub proof fn lemma_schedule_is_topological(n: int, edges: Seq<Edge>, s: Seq<usize>)
    requires
        is_schedule(n, edges, s),
        edges_in_range(n, edges),
    ensures
        forall|j: int, k: int| 0 <= j < k < n ==> s[j] != s[k],
        forall|v: int| 0 <= v < n ==> placed(s, n, v),
        forall|i: int, j: int, k: int|
            0 <= i < edges.len() && 0 <= j < n && 0 <= k < n && #[trigger] s[j] == #[trigger] edges[i].src()
                && #[trigger] s[k] == edges[i].dst() ==> j < k,
{
    assert forall|j: int, k: int| 0 <= j < k < n implies s[j] != s[k] by {
        assert(picks_first_ready(n, edges, s, k));
    }
    if n >= 0 {
        lemma_marks_count(n, edges, s, n);
        lemma_count_full(marks(n, s, n));
    }
    assert forall|v: int| 0 <= v < n implies placed(s, n, v) by {
        assert(marks(n, s, n)[v]);
    }
    assert forall|i: int, j: int, k: int|
        0 <= i < edges.len() && 0 <= j < n && 0 <= k < n && #[trigger] s[j] == #[trigger] edges[i].src()
            && #[trigger] s[k] == edges[i].dst() implies j < k by {
        assert(picks_first_ready(n, edges, s, k));
        assert(placed(s, k, edges[i].src()));
        let h = choose|h: int| 0 <= h < k && #[trigger] s[h] == edges[i].src();
        if h != j {
            if h < j {
                assert(picks_first_ready(n, edges, s, j));
            } else {
                assert(picks_first_ready(n, edges, s, h));
            }
        }
    }
}

proof fn lemma_same_prefix(n: int, edges: Seq<Edge>, a: Seq<usize>, b: Seq<usize>, k: int)
    requires
        is_schedule(n, edges, a),
        is_schedule(n, edges, b),
        0 <= k <= n,
    ensures
        forall|j: int| 0 <= j < k ==> a[j] == b[j],
    decreases k,
{
    if k > 0 {
        lemma_same_prefix(n, edges, a, b, k - 1);
        let m = k - 1;
        assert(picks_first_ready(n, edges, a, m));
        assert(picks_first_ready(n, edges, b, m));
        assert forall|v: int| placed(a, m, v) == placed(b, m, v) by {
            if placed(a, m, v) {
                let j = choose|j: int| 0 <= j < m && #[trigger] a[j] == v;
                assert(b[j] == v);
            }
            if placed(b, m, v) {
                let j = choose|j: int| 0 <= j < m && #[trigger] b[j] == v;
                assert(a[j] == v);
            }
        }
        assert forall|v: int| ready(edges, a, m, v) == ready(edges, b, m, v) by {}
        if a[m] < b[m] {
            assert(!ready(edges, b, m, a[m] as int));
        } else if b[m] < a[m] {
            assert(!ready(edges, a, m, b[m] as int));
        }
    }
}

/// A graph has one schedule only: the order is the same on every run.
pub proof fn lemma_schedule_unique(n: int, edges: Seq<Edge>, a: Seq<usize>, b: Seq<usize>)
    requires
        is_schedule(n, edges, a),
        is_schedule(n, edges, b),
    ensures
        a == b,
{
    if n >= 0 {
        lemma_same_prefix(n, edges, a, b, n);
    }
    assert(a =~= b);
}

/// Among the unmarked nodes below `upto`, one of least rank.
proof fn lemma_least_unmarked(rank: Seq<int>, done: Seq<bool>, upto: int) -> (m: int)
    requires
        0 <= upto <= done.len(),
        exists|v: int| 0 <= v < upto && !#[trigger] done[v],
    ensures
        0 <= m < upto,
        !done[m],
        forall|v: int| 0 <= v < upto && !#[trigger] done[v] ==> rank[m] <= rank[v],
    decreases upto,
{
    let last = upto - 1;
    if exists|v: int| 0 <= v < last && !#[trigger] done[v] {
        let m = lemma_least_unmarked(rank, done, last);
        if !done[last] && rank[last] < rank[m] {
            last
        } else {
            m
        }
    } else {
        last
    }
}

/// The flags `done` mark exactly the first `k` entries of `s`.
pub open spec fn marks_match(done: Seq<bool>, s: Seq<usize>, k: int) -> bool {
    forall|v: int| 0 <= v < done.len() ==> #[trigger] done[v] == placed(s, k, v)
}

/// While a graph without cycles has a node left to run, one is eligible.
proof fn lemma_some_ready(n: int, edges: Seq<Edge>, done: Seq<bool>, s: Seq<usize>, k: int) -> (m: int)
    requires
        acyclic(n, edges),
        edges_in_range(n, edges),
        done.len() == n,
        marks_match(done, s, k),
        count_set(done) < n,
    ensures
        0 <= m < n,
        ready(edges, s, k, m),
{
    let rank = choose|rank: Seq<int>| rank.len() == n && #[trigger] respects(edges, rank);
    let free = lemma_count_below_len(done);
    let m = lemma_least_unmarked(rank, done, n);
    assert(done[m] == placed(s, k, m));
    assert forall|i: int| 0 <= i < edges.len() && #[trigger] edges[i].dst() == m implies placed(
        s,
        k,
        edges[i].src(),
    ) by {
        let a = edges[i].src();
        assert(rank[a] < rank[m]);
        assert(done[a] == placed(s, k, a));
    }
    m
}

/// Whether every node that `v` depends on is marked in `done`.
fn dependencies_done(edges: &Vec<Edge>, done: &Vec<bool>, v: usize) -> (r: bool)
    requires
        edges_in_range(done.len() as int, edges@),
    ensures
        r == forall|i: int|
            0 <= i < edges.len() && #[trigger] edges[i].dst() == v ==> done[edges[i].src()],
{
    let mut i: usize = 0;
    while i < edges.len()
        invariant
            i <= edges.len(),
            edges_in_range(done.len() as int, edges@),
            forall|h: int| 0 <= h < i && #[trigger] edges[h].dst() == v ==> done[edges[h].src()],
        decreases edges.len() - i,
    {
        let e = edges[i];
        if e.to() == v && !done[e.from()] {
            return false;
        }
        i += 1;
    }
    true
}

/// Computes the schedule of a graph without cycles: again and again the first
/// inserted node among those whose dependencies have all run.
pub fn compute_schedule(n: usize, edges: &Vec<Edge>) -> (s: Vec<usize>)
    requires
        edges_in_range(n as int, edges@),
        acyclic(n as int, edges@),
    ensures
        is_schedule(n as int, edges@, s@),
{
    let mut done = cleared_flags(n);
    let mut order: Vec<usize> = Vec::new();
    while order.len() < n
        invariant
            done.len() == n,
            order.len() <= n,
            edges_in_range(n as int, edges@),
            acyclic(n as int, edges@),
            marks_match(done@, order@, order.len() as int),
            count_set(done@) == order.len(),
            forall|k: int| 0 <= k < order.len() ==> #[trigger] picks_first_ready(n as int, edges@, order@, k),
        decreases n - order.len(),
    {
        let ghost len = order.len() as int;
        let ghost before = order@;
        let ghost flags = done@;
        let ghost some = lemma_some_ready(n as int, edges@, done@, order@, len);
        let mut v: usize = 0;
        loop
            invariant_except_break
                v <= some,
            invariant
                0 <= some < n,
                v < n,
                done.len() == n,
                done@ == flags,
                order@ == before,
                edges_in_range(n as int, edges@),
                marks_match(done@, order@, len),
                ready(edges@, order@, len, some),
                forall|u: int| 0 <= u < v ==> !#[trigger] ready(edges@, order@, len, u),
            ensures
                ready(edges@, order@, len, v as int),
            decreases n - v,
        {
            let free = !done[v] && dependencies_done(edges, &done, v);
            proof {
                assert(done[v as int] == placed(order@, len, v as int));
                if free {
                    assert forall|i: int|
                        0 <= i < edges.len() && #[trigger] edges[i].dst() == v implies placed(
                        order@,
                        len,
                        edges[i].src(),
                    ) by {
                        assert(done[edges[i].src()] == placed(order@, len, edges[i].src()));
                    }
                } else if !done[v as int] {
                    let i = choose|i: int|
                        0 <= i < edges.len() && #[trigger] edges[i].dst() == v && !done[edges[i].src()];
                    assert(done[edges[i].src()] == placed(order@, len, edges[i].src()));
                }
            }
            if free {
                break;
            }
            v += 1;
        }
        order.push(v);
        done.set(v, true);
        proof {
            lemma_count_mark(flags, v as int);
            assert(order@[len] == v);
            assert forall|u: int, k: int| 0 <= k <= len implies placed(order@, k, u) == placed(
                before,
                k,
                u,
            ) by {
                if placed(order@, k, u) {
                    let j = choose|j: int| 0 <= j < k && #[trigger] order@[j] == u;
                    assert(before[j] == u);
                }
                if placed(before, k, u) {
                    let j = choose|j: int| 0 <= j < k && #[trigger] before[j] == u;
                    assert(order@[j] == u);
                }
            }
            assert forall|u: int, k: int| 0 <= k <= len implies ready(edges@, order@, k, u) == ready(
                edges@,
                before,
                k,
                u,
            ) by {}
            assert forall|k: int| 0 <= k < order.len() implies #[trigger] picks_first_ready(
                n as int,
                edges@,
                order@,
                k,
            ) by {
                if k < len {
                    assert(picks_first_ready(n as int, edges@, before, k));
                    assert(order@[k] == before[k]);
                    assert(ready(edges@, order@, k, order@[k] as int) == ready(
                        edges@,
                        before,
                        k,
                        order@[k] as int,
                    ));
                } else {
                    assert(ready(edges@, order@, len, v as int) == ready(edges@, before, len, v as int));
                }
                assert forall|u: int| 0 <= u < order@[k] implies !#[trigger] ready(
                    edges@,
                    order@,
                    k,
                    u,
                ) by {
                    assert(ready(edges@, order@, k, u) == ready(edges@, before, k, u));
                }
            }
            assert forall|u: int| 0 <= u < done.len() implies #[trigger] done[u] == placed(
                order@,
                len + 1,
                u,
            ) by {
                assert(flags[u] == placed(before, len, u));
                if u != v {
                    if placed(order@, len + 1, u) {
                        let j = choose|j: int| 0 <= j < len + 1 && #[trigger] order@[j] == u;
                        assert(before[j] == u);
                    }
                    if placed(before, len, u) {
                        let j = choose|j: int| 0 <= j < len && #[trigger] before[j] == u;
                        assert(order@[j] == u);
                    }
                }
            }
        }
    }
    order
}

} // verus!
