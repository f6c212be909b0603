//! Connected components of a finite graph, kept as one label per node.
//!
//! The nodes are `0..n`; an edge relation `e` joins `x` and `y` when
//! `e(x, y)` or `e(y, x)` holds. Labels are exact when two nodes share a
//! label if and only if a walk joins them.
use vstd::prelude::*;

verus! {

/// Whether step `k` of the walk `p` follows an edge (either direction).
pub open spec fn step_ok(e: spec_fn(int, int) -> bool, p: Seq<int>, k: int) -> bool {
    e(p[k], p[k + 1]) || e(p[k + 1], p[k])
}

/// Whether `p` is a walk from `x` to `y` over the nodes `0..n`.
pub open spec fn is_walk(e: spec_fn(int, int) -> bool, n: int, p: Seq<int>, x: int, y: int) -> bool {
    &&& p.len() >= 1
    &&& p[0] == x
    &&& p[p.len() - 1] == y
    &&& forall|k: int| 0 <= k < p.len() ==> 0 <= #[trigger] p[k] < n
    &&& forall|k: int| 0 <= k < p.len() - 1 ==> #[trigger] step_ok(e, p, k)
}

/// Whether a walk joins `x` and `y`.
pub open spec fn connected(e: spec_fn(int, int) -> bool, n: int, x: int, y: int) -> bool {
    exists|p: Seq<int>| #[trigger] is_walk(e, n, p, x, y)
}

/// Labels of the nodes `0..n` that are equal exactly for connected nodes.
pub open spec fn labels_exact(e: spec_fn(int, int) -> bool, n: int, l: Seq<usize>) -> bool {
    &&& l.len() == n
    &&& forall|x: int, y: int|
        0 <= x < n && 0 <= y < n ==> (l[x] == l[y] <==> #[trigger] connected(e, n, x, y))
}

/// The relation `e` with the edge `(a, b)` added.
pub open spec fn add_edge(e: spec_fn(int, int) -> bool, a: int, b: int) -> spec_fn(int, int) -> bool {
    |x: int, y: int| e(x, y) || (x == a && y == b)
}

/// The labels with every `from` replaced by `to`.
pub open spec fn relabel(l: Seq<usize>, from: usize, to: usize) -> Seq<usize> {
    l.map_values(|v: usize| if v == from { to } else { v })
}

/// The relation with no edge.
pub open spec fn no_edges() -> spec_fn(int, int) -> bool {
    |x: int, y: int| false
}

/// A one-node walk.
pub proof fn lemma_walk_single(e: spec_fn(int, int) -> bool, n: int, x: int)
    requires
        0 <= x < n,
    ensures
        is_walk(e, n, seq![x], x, x),
        connected(e, n, x, x),
{
    assert(is_walk(e, n, seq![x], x, x));
}

/// A one-edge walk.
pub proof fn lemma_walk_edge(e: spec_fn(int, int) -> bool, n: int, x: int, y: int)
    requires
        0 <= x < n,
        0 <= y < n,
        e(x, y) || e(y, x),
    ensures
        connected(e, n, x, y),
{
    let p = seq![x, y];
    assert(step_ok(e, p, 0));
    assert(is_walk(e, n, p, x, y));
}

/// Walks join end to end.
pub proof fn lemma_walk_concat(e: spec_fn(int, int) -> bool, n: int, p: Seq<int>, q: Seq<int>, x: int, y: int, z: int)
    requires
        is_walk(e, n, p, x, y),
        is_walk(e, n, q, y, z),
    ensures
        is_walk(e, n, p + q.drop_first(), x, z),
{
    let r = p + q.drop_first();
    assert forall|k: int| 0 <= k < r.len() implies 0 <= #[trigger] r[k] < n by {
        if k >= p.len() {
            assert(r[k] == q[k - p.len() + 1]);
        }
    }
    assert forall|k: int| 0 <= k < r.len() - 1 implies #[trigger] step_ok(e, r, k) by {
        if k < p.len() - 1 {
            assert(step_ok(e, p, k));
        } else {
            let j = k - p.len() + 1;
            assert(step_ok(e, q, j));
            assert(r[k] == q[j]);
            assert(r[k + 1] == q[j + 1]);
        }
    }
    if q.len() == 1 {
        assert(r =~= p);
    } else {
        assert(r[r.len() - 1] == q[q.len() - 1]);
    }
}

/// A walk read backwards.
pub proof fn lemma_walk_reverse(e: spec_fn(int, int) -> bool, n: int, p: Seq<int>, x: int, y: int)
    requires
        is_walk(e, n, p, x, y),
    ensures
        is_walk(e, n, p.reverse(), y, x),
{
    let r = p.reverse();
    assert forall|k: int| 0 <= k < r.len() implies 0 <= #[trigger] r[k] < n by {
        assert(r[k] == p[p.len() - 1 - k]);
    }
    assert forall|k: int| 0 <= k < r.len() - 1 implies #[trigger] step_ok(e, r, k) by {
        let j = p.len() - 2 - k;
        assert(step_ok(e, p, j));
        assert(r[k] == p[j + 1]);
        assert(r[k + 1] == p[j]);
    }
}

/// Connection is symmetric and transitive.
pub proof fn lemma_connected_symmetric_transitive(e: spec_fn(int, int) -> bool, n: int, x: int, y: int, z: int)
    ensures
        connected(e, n, x, y) ==> connected(e, n, y, x),
        connected(e, n, x, y) && connected(e, n, y, z) ==> connected(e, n, x, z),
{
    if connected(e, n, x, y) {
        let p = choose|p: Seq<int>| is_walk(e, n, p, x, y);
        lemma_walk_reverse(e, n, p, x, y);
        if connected(e, n, y, z) {
            let q = choose|q: Seq<int>| is_walk(e, n, q, y, z);
            lemma_walk_concat(e, n, p, q, x, y, z);
        }
    }
}

/// A walk over fewer edges is a walk over more.
pub proof fn lemma_walk_mono(e: spec_fn(int, int) -> bool, f: spec_fn(int, int) -> bool, n: int, p: Seq<int>, x: int, y: int)
    requires
        is_walk(e, n, p, x, y),
        forall|a: int, b: int| #[trigger] e(a, b) ==> f(a, b),
    ensures
        is_walk(f, n, p, x, y),
{
    assert forall|k: int| 0 <= k < p.len() - 1 implies #[trigger] step_ok(f, p, k) by {
        assert(step_ok(e, p, k));
    }
}

/// Labels that agree across every edge agree along a walk.
pub proof fn lemma_walk_labels(e: spec_fn(int, int) -> bool, n: int, p: Seq<int>, x: int, y: int, l: Seq<usize>)
    requires
        is_walk(e, n, p, x, y),
        l.len() == n,
        forall|a: int, b: int| 0 <= a < n && 0 <= b < n && #[trigger] e(a, b) ==> l[a] == l[b],
    ensures
        l[x] == l[y],
    decreases p.len(),
{
    if p.len() > 1 {
        let q = p.drop_last();
        assert(step_ok(e, p, p.len() - 2));
        assert(is_walk(e, n, q, x, p[p.len() - 2])) by {
            assert forall|k: int| 0 <= k < q.len() - 1 implies #[trigger] step_ok(e, q, k) by {
                assert(step_ok(e, p, k));
            }
        }
        lemma_walk_labels(e, n, q, x, p[p.len() - 2], l);
        assert(0 <= p[p.len() - 2] < n);
    }
}

/// Without edges, only a node and itself are connected.
pub proof fn lemma_no_edges(n: int, x: int, y: int)
    requires
        0 <= x < n,
        0 <= y < n,
    ensures
        connected(no_edges(), n, x, y) <==> x == y,
{
    if x == y {
        lemma_walk_single(no_edges(), n, x);
    }
    if connected(no_edges(), n, x, y) {
        let p = choose|p: Seq<int>| is_walk(no_edges(), n, p, x, y);
        if p.len() > 1 {
            assert(step_ok(no_edges(), p, 0));
        }
    }
}

/// Adding the edge `(a, b)` and giving `b`'s component `a`'s label keeps
/// the labels exact.
pub proof fn lemma_merge(e: spec_fn(int, int) -> bool, n: int, l: Seq<usize>, a: int, b: int)
    requires
        labels_exact(e, n, l),
        0 <= a < n,
        0 <= b < n,
    ensures
        labels_exact(add_edge(e, a, b), n, relabel(l, l[b], l[a])),
{
    let f = add_edge(e, a, b);
    let m = relabel(l, l[b], l[a]);
    assert forall|x: int, y: int| 0 <= x < n && 0 <= y < n && #[trigger] e(x, y) implies l[x] == l[y] by {
        lemma_walk_edge(e, n, x, y);
    }
    assert forall|x: int, y: int| 0 <= x < n && 0 <= y < n && #[trigger] f(x, y) implies m[x] == m[y] by {
        if e(x, y) {
            lemma_walk_edge(e, n, x, y);
        }
    }
    assert forall|x: int, y: int| #[trigger] e(x, y) implies f(x, y) by {}
    assert forall|x: int, y: int| 0 <= x < n && 0 <= y < n implies (m[x] == m[y] <==> #[trigger] connected(f, n, x, y)) by {
        if connected(f, n, x, y) {
            let p = choose|p: Seq<int>| is_walk(f, n, p, x, y);
            lemma_walk_labels(f, n, p, x, y, m);
        }
        if m[x] == m[y] {
            lemma_connected_to_edge(e, n, l, a, b, x, y);
        }
    }
}

proof fn lemma_connected_to_edge(e: spec_fn(int, int) -> bool, n: int, l: Seq<usize>, a: int, b: int, x: int, y: int)
    requires
        labels_exact(e, n, l),
        0 <= a < n,
        0 <= b < n,
        0 <= x < n,
        0 <= y < n,
        relabel(l, l[b], l[a])[x] == relabel(l, l[b], l[a])[y],
    ensures
        connected(add_edge(e, a, b), n, x, y),
{
    let f = add_edge(e, a, b);
    assert forall|u: int, v: int| #[trigger] e(u, v) implies f(u, v) by {}
    assert(connected(e, n, x, x) && connected(e, n, y, y)) by {
        lemma_walk_single(e, n, x);
        lemma_walk_single(e, n, y);
    }
    let xb = l[x] == l[b];
    let yb = l[y] == l[b];
    if xb == yb {
        // same old label
        assert(l[x] == l[y]);
        assert(connected(e, n, x, y));
        let p = choose|p: Seq<int>| is_walk(e, n, p, x, y);
        lemma_walk_mono(e, f, n, p, x, y);
    } else {
        let (u, w) = if xb { (x, y) } else { (y, x) };
        // u is with b, w is with a
        assert(l[u] == l[b] && l[w] == l[a]);
        assert(connected(e, n, u, b));
        assert(connected(e, n, a, w));
        let p = choose|p: Seq<int>| is_walk(e, n, p, u, b);
        let q = choose|q: Seq<int>| is_walk(e, n, q, a, w);
        lemma_walk_mono(e, f, n, p, u, b);
        lemma_walk_mono(e, f, n, q, a, w);
        assert(f(a, b));
        lemma_walk_edge(f, n, b, a);
        let r = choose|r: Seq<int>| is_walk(f, n, r, b, a);
        lemma_walk_concat(f, n, p, r, u, b, a);
        lemma_walk_concat(f, n, p + r.drop_first(), q, u, a, w);
        assert(connected(f, n, u, w));
        lemma_connected_symmetric_transitive(f, n, u, w, u);
    }
}

/// Gives every node labelled `from` the label `to`.
pub fn relabel_exec(l: &mut Vec<usize>, from: usize, to: usize)
    ensures
        final(l)@ == relabel(old(l)@, from, to),
{
    let mut i: usize = 0;
    while i < l.len()
        invariant
            i <= l@.len(),
            l@.len() == old(l)@.len(),
            forall|k: int| 0 <= k < i ==> l@[k] == (if old(l)@[k] == from { to } else { old(l)@[k] }),
            forall|k: int| i <= k < l@.len() ==> l@[k] == old(l)@[k],
        decreases l@.len() - i,
    {
        if l[i] == from {
            l.set(i, to);
        }
        i = i + 1;
    }
    assert(l@ =~= relabel(old(l)@, from, to));
}

} // verus!
