//! The bounded cycle search from the settlement token, the score cache it
//! consults, and the cache's invalidation by changed venues.
use vstd::prelude::*;
use arrayvec::ArrayVec;
use dashmap::DashMap;
use std::sync::atomic::{AtomicBool, Ordering};
use crate::trading_graph::{Database, PriceGraph, RATE_ONE, graph_outgoing, list_contains, outgoing_of};
use crate::types::Address;

verus! {

#[verifier::external_type_specification]
#[verifier::external_body]
#[verifier::reject_recursive_types(T)]
pub struct ExArrayVec<T, const CAP: usize>(ArrayVec<T, CAP>);

#[verifier::external_type_specification]
#[verifier::external_body]
#[verifier::reject_recursive_types(K)]
#[verifier::reject_recursive_types(V)]
#[verifier::reject_recursive_types(S)]
pub struct ExDashMap<K, V, S>(DashMap<K, V, S>);

/// The most steps a path holds, the source included.
pub const MAX_DEPTH: usize = 5;

/// A step of a path: the node reached and the edge taken to reach it (none
/// for the source).
pub type Step = (usize, Option<usize>);

/// A candidate path.
pub type PathT = ArrayVec<Step, MAX_DEPTH>;

/// The score cache: path to score, in wei. The library writes to it only
/// through `&mut`; readers share it while no one writes.
pub type Memo = DashMap<PathT, i128>;

/// The steps of a path, in order.
pub uninterp spec fn path_steps(p: PathT) -> Seq<Step>;

/// The entries of a score cache, keyed by the steps of each path.
pub uninterp spec fn memo_entries(m: Memo) -> Map<Seq<Step>, i128>;

/// Relies on arrayvec's `ArrayVec::new`: an empty vector.
#[verifier::external_body]
pub(crate) fn path_new() -> (p: PathT)
    ensures
        path_steps(p) == Seq::<Step>::empty(),
{
    ArrayVec::new()
}

/// Relies on arrayvec's `ArrayVec::push`: the step is appended (it panics
/// only when the vector is full).
#[verifier::external_body]
pub(crate) fn path_push(p: &mut PathT, s: Step)
    requires
        path_steps(*old(p)).len() < MAX_DEPTH,
    ensures
        path_steps(*final(p)) == path_steps(*old(p)).push(s),
{
    p.push(s);
}

/// Relies on arrayvec's `ArrayVec::pop`: the last step is removed.
#[verifier::external_body]
fn path_pop(p: &mut PathT)
    requires
        path_steps(*old(p)).len() > 0,
    ensures
        path_steps(*final(p)) == path_steps(*old(p)).drop_last(),
{
    p.pop();
}

/// Relies on arrayvec's `ArrayVec::len`: the number of steps.
#[verifier::external_body]
pub(crate) fn path_len(p: &PathT) -> (r: usize)
    ensures
        r == path_steps(*p).len(),
        r <= MAX_DEPTH,
{
    p.len()
}

/// Relies on the slice indexing that `ArrayVec` dereferences to: step `i`.
#[verifier::external_body]
pub(crate) fn path_get(p: &PathT, i: usize) -> (r: Step)
    requires
        i < path_steps(*p).len(),
    ensures
        r == path_steps(*p)[i as int],
{
    p[i]
}

/// Relies on arrayvec's `Clone` for `ArrayVec`: a copy of each step.
#[verifier::external_body]
fn path_clone(p: &PathT) -> (r: PathT)
    ensures
        path_steps(r) == path_steps(*p),
{
    p.clone()
}

/// Relies on dashmap's `DashMap::new`: an empty map.
#[verifier::external_body]
pub(crate) fn memo_new() -> (m: Memo)
    ensures
        memo_entries(m).dom().is_empty(),
{
    DashMap::new()
}

/// Relies on dashmap's `DashMap::contains_key`: whether the path has an entry.
#[verifier::external_body]
fn memo_contains(m: &Memo, p: &PathT) -> (r: bool)
    ensures
        r == memo_entries(*m).contains_key(path_steps(*p)),
{
    m.contains_key(p)
}

/// Relies on dashmap's `DashMap::insert`: the path's entry becomes `score`.
#[verifier::external_body]
pub(crate) fn memo_insert(m: &mut Memo, p: PathT, score: i128)
    ensures
        memo_entries(*final(m)) == memo_entries(*old(m)).insert(path_steps(p), score),
{
    m.insert(p, score);
}

/// Relies on dashmap's `DashMap::remove`: the path's entry, if any, is gone.
#[verifier::external_body]
fn memo_remove(m: &mut Memo, p: &PathT)
    ensures
        memo_entries(*final(m)) == memo_entries(*old(m)).remove(path_steps(*p)),
{
    m.remove(p);
}

/// Relies on dashmap's `DashMap::iter`: each key once, in no set order.
#[verifier::external_body]
fn memo_keys(m: &Memo) -> (r: Vec<PathT>)
    ensures
        forall|i: int| 0 <= i < r.len() ==> memo_entries(*m).contains_key(path_steps(#[trigger] r[i])),
        forall|k: Seq<Step>| #[trigger] memo_entries(*m).contains_key(k) ==>
            exists|i: int| 0 <= i < r.len() && path_steps(r[i]) == k,
        forall|i: int, j: int| 0 <= i < j < r.len() ==> path_steps(r[i]) != path_steps(r[j]),
{
    m.iter().map(|e| e.key().clone()).collect()
}

/// The largest accepted cumulative weight: 1.5 in units of `RATE_ONE`.
pub const WEIGHT_CAP: u64 = 1_500_000_000_000;

/// The cumulative weight after one more edge of rate `rate`, in units of
/// `RATE_ONE`, rounded down and capped at `u64::MAX`.
pub open spec fn step_weight(w: nat, rate: u64) -> nat {
    let p = w * rate as nat / RATE_ONE as nat;
    if p > u64::MAX as nat {
        u64::MAX as nat
    } else {
        p
    }
}

/// The edge by which step `s` is reached.
pub open spec fn step_edge(s: Step) -> int {
    s.1.unwrap() as int
}

/// The cumulative weight of a path: the product of its edges' rates.
pub open spec fn path_weight(es: Seq<(usize, usize, u64)>, p: Seq<Step>) -> nat
    decreases p.len(),
{
    if p.len() <= 1 {
        RATE_ONE as nat
    } else {
        step_weight(path_weight(es, p.drop_last()), es[step_edge(p.last())].2)
    }
}

/// A cumulative weight inside the acceptance band `(1.0, 1.5]`.
pub open spec fn in_band(w: nat) -> bool {
    RATE_ONE < w && w <= WEIGHT_CAP
}

/// A walk from `source`: the source first, then steps each reached by an
/// edge of the graph from the node before.
pub open spec fn is_walk(es: Seq<(usize, usize, u64)>, source: usize, p: Seq<Step>) -> bool {
    &&& p.len() >= 1
    &&& p[0] == (source, None::<usize>)
    &&& forall|k: int| 1 <= k < p.len() ==> {
        &&& (#[trigger] p[k]).1 is Some
        &&& 0 <= step_edge(p[k]) < es.len()
        &&& es[step_edge(p[k])].0 == p[k - 1].0
        &&& es[step_edge(p[k])].1 == p[k].0
    }
}

/// No edge is taken twice among the first `n` steps.
pub open spec fn edges_distinct(p: Seq<Step>, n: int) -> bool {
    forall|i: int, j: int| 1 <= i < j < n ==> step_edge(#[trigger] p[i]) != step_edge(#[trigger] p[j])
}

/// The source is not visited between the first and the last step.
pub open spec fn source_only_at_ends(p: Seq<Step>, source: usize) -> bool {
    forall|k: int| 1 <= k < p.len() - 1 ==> (#[trigger] p[k]).0 != source
}

/// A cycle through `source`: a walk with at least one edge that ends back
/// at the source, meets it nowhere in between, and repeats no edge.
pub open spec fn is_cycle(es: Seq<(usize, usize, u64)>, source: usize, p: Seq<Step>) -> bool {
    &&& is_walk(es, source, p)
    &&& p.len() >= 2
    &&& p.last().0 == source
    &&& source_only_at_ends(p, source)
    &&& edges_distinct(p, p.len() as int)
}

/// A path that the search hands on for scoring: a cycle of at most
/// `MAX_DEPTH` steps, with its weight in the band, not yet in the cache.
pub open spec fn is_candidate(es: Seq<(usize, usize, u64)>, source: usize, memo: Map<Seq<Step>, i128>, p: Seq<Step>) -> bool {
    &&& is_cycle(es, source, p)
    &&& p.len() <= MAX_DEPTH
    &&& in_band(path_weight(es, p))
    &&& !memo.contains_key(p)
}

/// The paths found so far are all candidates.
pub open spec fn all_candidates(es: Seq<(usize, usize, u64)>, source: usize, memo: Map<Seq<Step>, i128>, found: Seq<PathT>) -> bool {
    forall|i: int| 0 <= i < found.len() ==> is_candidate(es, source, memo, path_steps(#[trigger] found[i]))
}

/// `a + b`, capped at `u64::MAX`.
fn add_capped(a: u64, b: u64) -> (r: u64)
    ensures
        r == if a as nat + b as nat > u64::MAX as nat { u64::MAX as nat } else { a as nat + b as nat },
{
    if a > u64::MAX - b {
        u64::MAX
    } else {
        a + b
    }
}

/// The executable form of `step_weight`.
fn next_weight(w: u64, rate: u64) -> (r: u64)
    ensures
        r == step_weight(w as nat, rate),
{
    proof {
        assert(w as nat * rate as nat <= u64::MAX as nat * u64::MAX as nat) by (nonlinear_arith)
            requires w <= u64::MAX, rate <= u64::MAX;
    }
    let p = (w as u128 * rate as u128) / RATE_ONE as u128;
    if p > u64::MAX as u128 {
        u64::MAX
    } else {
        p as u64
    }
}

/// `q` continues `prefix`: it starts with all of `prefix`'s steps.
pub open spec fn extends(prefix: Seq<Step>, q: Seq<Step>) -> bool {
    prefix.len() <= q.len() && q.subrange(0, prefix.len() as int) == prefix
}

/// `q` is among the paths of `found` from position `from` on.
pub open spec fn found_in(found: Seq<PathT>, from: int, q: Seq<Step>) -> bool {
    exists|i: int| from <= i < found.len() && #[trigger] path_steps(found[i]) == q
}

/// Every candidate that continues `prefix` and has at most `limit` steps is
/// among the paths of `found` from position `from` on.
pub open spec fn covers(
    es: Seq<(usize, usize, u64)>,
    source: usize,
    memo: Map<Seq<Step>, i128>,
    prefix: Seq<Step>,
    limit: int,
    found: Seq<PathT>,
    from: int,
) -> bool {
    forall|q: Seq<Step>| #[trigger] is_candidate(es, source, memo, q) && extends(prefix, q) && q.len() <= limit
        ==> found_in(found, from, q)
}

proof fn lemma_covers_grow(
    es: Seq<(usize, usize, u64)>,
    source: usize,
    memo: Map<Seq<Step>, i128>,
    prefix: Seq<Step>,
    limit: int,
    f1: Seq<PathT>,
    f2: Seq<PathT>,
    from: int,
)
    requires
        covers(es, source, memo, prefix, limit, f1, from),
        0 <= from,
        f1.len() <= f2.len(),
        f2.subrange(0, f1.len() as int) == f1,
    ensures
        covers(es, source, memo, prefix, limit, f2, from),
{
    assert forall|q: Seq<Step>| #[trigger] is_candidate(es, source, memo, q) && extends(prefix, q) && q.len() <= limit
        implies found_in(f2, from, q) by {
        assert(found_in(f1, from, q));
        let i = choose|i: int| from <= i < f1.len() && #[trigger] path_steps(f1[i]) == q;
        assert(f2[i] == f2.subrange(0, f1.len() as int)[i]);
        assert(path_steps(f2[i]) == q);
    }
}

/// The last step of `p` takes an edge already taken earlier in `p`.
pub open spec fn repeats_last_edge(p: Seq<Step>) -> bool {
    exists|k: int| 1 <= k < p.len() - 1 && step_edge(#[trigger] p[k]) == step_edge(p.last())
}

/// The number of loops that the depth-first search reaches from `prefix`
/// with `depth` more steps allowed: a walk that takes an edge a second time
/// is dropped, one back at the source is a loop, and otherwise each outgoing
/// edge is followed in turn.
pub open spec fn loops_reached(g: PriceGraph, source: usize, prefix: Seq<Step>, depth: nat) -> nat
    decreases depth, outgoing_of(g.0, prefix.last().0).len() + 1,
{
    if repeats_last_edge(prefix) {
        0
    } else if prefix.last().0 == source {
        1
    } else if depth == 0 {
        0
    } else {
        loops_through(g, source, prefix, depth, outgoing_of(g.0, prefix.last().0).len())
    }
}

/// The loops reached through the first `k` outgoing edges of `prefix`'s last
/// node.
pub open spec fn loops_through(g: PriceGraph, source: usize, prefix: Seq<Step>, depth: nat, k: nat) -> nat
    decreases depth, k,
{
    if k == 0 || depth == 0 {
        0
    } else {
        let e = outgoing_of(g.0, prefix.last().0)[k - 1];
        loops_through(g, source, prefix, depth, (k - 1) as nat)
            + loops_reached(g, source, prefix.push((e.1, Some(e.0))), (depth - 1) as nat)
    }
}

/// The number of loops that the whole search reaches from `source`.
pub open spec fn loops_from_source(g: PriceGraph, source: usize) -> nat {
    loops_through(g, source, seq![(source, None::<usize>)], (MAX_DEPTH - 1) as nat, outgoing_of(g.0, source).len())
}

/// `n` capped at `u64::MAX`.
pub open spec fn capped(n: nat) -> nat {
    if n > u64::MAX as nat {
        u64::MAX as nat
    } else {
        n
    }
}

/// Depth-first search from the last step of `path`: returns the number of
/// loop candidates reached (capped at `u64::MAX`) and whether the search was
/// cut short by `stop`, and appends to `found` each candidate that continues
/// `path`: all of them unless the search was cut short.
#[verifier::loop_isolation(false)]
fn search(
    g: &PriceGraph,
    stop: &AtomicBool,
    memo: &Memo,
    weight: u64,
    node: usize,
    source: usize,
    path: &mut PathT,
    depth: usize,
    found: &mut Vec<PathT>,
) -> (r: (u64, bool))
    requires
        g.edges_in_range(),
        source < g.nodes().len(),
        is_walk(g.edges(), source, path_steps(*old(path))),
        path_steps(*old(path)).len() >= 2,
        path_steps(*old(path)).last().0 == node,
        source_only_at_ends(path_steps(*old(path)), source),
        edges_distinct(path_steps(*old(path)), path_steps(*old(path)).len() - 1),
        weight == path_weight(g.edges(), path_steps(*old(path))),
        path_steps(*old(path)).len() + depth <= MAX_DEPTH,
        all_candidates(g.edges(), source, memo_entries(*memo), old(found)@),
    ensures
        path_steps(*final(path)) == path_steps(*old(path)),
        all_candidates(g.edges(), source, memo_entries(*memo), final(found)@),
        final(found)@.len() >= old(found)@.len(),
        final(found)@.subrange(0, old(found)@.len() as int) == old(found)@,
        forall|i: int| old(found)@.len() <= i < final(found)@.len() ==>
            extends(path_steps(*old(path)), path_steps(#[trigger] final(found)@[i])),
        !r.1 ==> r.0 == capped(loops_reached(*g, source, path_steps(*old(path)), depth as nat)),
        !r.1 ==> covers(
            g.edges(),
            source,
            memo_entries(*memo),
            path_steps(*old(path)),
            path_steps(*old(path)).len() + depth,
            final(found)@,
            old(found)@.len() as int,
        ),
    decreases depth,
{
    let ghost es = g.edges();
    let ghost mm = memo_entries(*memo);
    let ghost base = path_steps(*path);
    let ghost n0 = old(found)@.len() as int;
    let ghost lim = base.len() + depth;
    if stop.load(Ordering::Relaxed) {
        proof {
            assert(found@.subrange(0, n0) =~= found@);
        }
        return (0, true);
    }
    let len = path_len(path);
    let last = path_get(path, len - 1);
    let mut k: usize = 1;
    while k < len - 1
        invariant
            1 <= k <= len - 1,
            len == base.len(),
            base == path_steps(*path),
            last == base[len - 1],
            forall|i: int| 1 <= i < k ==> step_edge(base[i]) != step_edge(last),
        decreases len - k,
    {
        let s = path_get(path, k);
        if s.1 == last.1 {
            proof {
                assert(base[k as int].1 is Some && last.1 is Some);
                assert(step_edge(base[k as int]) == step_edge(base.last()));
                assert(repeats_last_edge(base));
                assert(found@.subrange(0, n0) =~= found@);
                assert forall|q: Seq<Step>| #[trigger] is_candidate(es, source, mm, q) && extends(base, q) && q.len() <= lim implies found_in(found@, n0, q) by {
                    assert(q[k as int] == q.subrange(0, base.len() as int)[k as int]);
                    assert(q[len - 1] == q.subrange(0, base.len() as int)[len - 1]);
                }
            }
            return (0, false);
        }
        proof {
            assert(base[k as int].1 is Some && last.1 is Some);
        }
        k += 1;
    }
    proof {
        assert(!repeats_last_edge(base)) by {
            assert(base.last() == last);
        }
        assert(edges_distinct(base, base.len() as int)) by {
            assert forall|i: int, j: int| 1 <= i < j < base.len() implies step_edge(#[trigger] base[i]) != step_edge(#[trigger] base[j]) by {
                if j == base.len() - 1 {
                    assert(base[j] == last);
                }
            }
        }
    }
    if node == source {
        proof {
            // a candidate that continues a path back at the source is that path
            assert forall|q: Seq<Step>| #[trigger] is_candidate(es, source, mm, q) && extends(base, q) && q.len() <= lim implies q == base by {
                if q.len() > base.len() {
                    assert(q[base.len() - 1] == q.subrange(0, base.len() as int)[base.len() - 1]);
                }
                assert(q =~= q.subrange(0, base.len() as int));
            }
            assert(found@.subrange(0, n0) =~= found@);
        }
        if weight <= RATE_ONE || weight > WEIGHT_CAP {
            return (1, false);
        }
        if memo_contains(memo, path) {
            return (1, false);
        }
        let candidate = path_clone(path);
        found.push(candidate);
        proof {
            assert forall|i: int| 0 <= i < found@.len() implies is_candidate(es, source, mm, path_steps(#[trigger] found@[i])) by {
                if i < found@.len() - 1 {
                    assert(found@[i] == old(found)@[i]);
                }
            }
            assert(found@.subrange(0, n0) =~= old(found)@);
            assert(path_steps(found@[n0]) == base);
            assert(base.subrange(0, base.len() as int) =~= base);
            assert forall|i: int| n0 <= i < found@.len() implies extends(base, path_steps(#[trigger] found@[i])) by {
                assert(i == n0);
            }
            assert forall|q: Seq<Step>| #[trigger] is_candidate(es, source, mm, q) && extends(base, q) && q.len() <= lim implies found_in(found@, n0, q) by {
                assert(path_steps(found@[n0]) == q);
            }
        }
        return (1, false);
    }
    if depth == 0 {
        proof {
            assert(found@.subrange(0, n0) =~= found@);
            assert forall|q: Seq<Step>| #[trigger] is_candidate(es, source, mm, q) && extends(base, q) && q.len() <= lim implies found_in(found@, n0, q) by {
                assert(q =~= q.subrange(0, base.len() as int));
            }
        }
        return (0, false);
    }
    let outs = graph_outgoing(&g.0, node);
    let mut paths_searched: u64 = 0;
    let mut interrupted = false;
    let n = outs.len();
    proof {
        assert(found@.subrange(0, n0) =~= found@);
    }
    for i in 0..n
        invariant
            n == outs.len(),
            es == g.edges(),
            mm == memo_entries(*memo),
            node != source,
            depth > 0,
            path_steps(*path) == base,
            edges_distinct(base, base.len() as int),
            all_candidates(es, source, mm, found@),
            found@.len() >= n0,
            found@.subrange(0, n0) == old(found)@,
            forall|i: int| n0 <= i < found@.len() ==> extends(base, path_steps(#[trigger] found@[i])),
            outs@ == outgoing_of(g.0, node),
            !repeats_last_edge(base),
            !interrupted ==> paths_searched == capped(loops_through(*g, source, base, depth as nat, i as nat)),
            !interrupted ==> forall|j: int| 0 <= j < i ==>
                covers(es, source, mm, base.push(((#[trigger] outs[j]).1, Some(outs[j].0))), lim, found@, n0),
    {
        let (e, target, rate) = outs[i];
        let w = next_weight(weight, rate);
        path_push(path, (target, Some(e)));
        let ghost next = path_steps(*path);
        let ghost found_before = found@;
        proof {
            assert(next =~= base.push((target, Some(e))));
            assert(next.drop_last() =~= base);
            assert forall|k: int| 1 <= k < next.len() implies {
                &&& (#[trigger] next[k]).1 is Some
                &&& 0 <= step_edge(next[k]) < es.len()
                &&& es[step_edge(next[k])].0 == next[k - 1].0
                &&& es[step_edge(next[k])].1 == next[k].0
            } by {
                if k < next.len() - 1 {
                    assert(next[k] == base[k]);
                    assert(next[k - 1] == base[k - 1]);
                }
            }
            assert forall|k: int| 1 <= k < next.len() - 1 implies (#[trigger] next[k]).0 != source by {
                assert(next[k] == base[k]);
            }
            assert forall|a: int, b: int| 1 <= a < b < next.len() - 1 implies step_edge(#[trigger] next[a]) != step_edge(#[trigger] next[b]) by {
                assert(next[a] == base[a]);
                assert(next[b] == base[b]);
            }
            assert(es[e as int].1 < g.nodes().len());
        }
        let sub = search(g, stop, memo, w, target, source, path, depth - 1, found);
        path_pop(path);
        proof {
            assert(path_steps(*path) =~= base);
            assert forall|x: int| n0 <= x < found@.len() implies extends(base, path_steps(#[trigger] found@[x])) by {
                if x < found_before.len() {
                    assert(found@[x] == found@.subrange(0, found_before.len() as int)[x]);
                } else {
                    let q = path_steps(found@[x]);
                    assert(extends(next, q));
                    assert forall|t: int| 0 <= t < base.len() implies q.subrange(0, base.len() as int)[t] == base[t] by {
                        assert(q[t] == q.subrange(0, next.len() as int)[t]);
                        assert(next[t] == base[t]);
                    }
                    assert(q.subrange(0, base.len() as int) =~= base);
                }
            }
            assert(found@.subrange(0, n0) =~= old(found)@) by {
                assert forall|j: int| 0 <= j < n0 implies found@[j] == old(found)@[j] by {
                    assert(found@[j] == found@.subrange(0, found_before.len() as int)[j]);
                    assert(found_before[j] == found_before.subrange(0, n0)[j]);
                }
            }
            if !interrupted && !sub.1 {
                assert forall|j: int| 0 <= j < i + 1 implies
                    covers(es, source, mm, base.push(((#[trigger] outs[j]).1, Some(outs[j].0))), lim, found@, n0) by {
                    if j < i {
                        lemma_covers_grow(es, source, mm, base.push((outs[j].1, Some(outs[j].0))), lim, found_before, found@, n0);
                    } else {
                        let pj = base.push((outs[j].1, Some(outs[j].0)));
                        assert(pj == next);
                        assert forall|q: Seq<Step>| #[trigger] is_candidate(es, source, mm, q) && extends(pj, q) && q.len() <= lim implies found_in(found@, n0, q) by {
                            let x = choose|x: int| found_before.len() <= x < found@.len() && #[trigger] path_steps(found@[x]) == q;
                        }
                    }
                }
            }
        }
        proof {
            assert(next == base.push((outs@[i as int].1, Some(outs@[i as int].0))));
            assert(base.last().0 == node);
        }
        paths_searched = add_capped(paths_searched, sub.0);
        interrupted = interrupted || sub.1;
    }
    proof {
        assert(base.last().0 == node);
        if !interrupted {
            assert forall|q: Seq<Step>| #[trigger] is_candidate(es, source, mm, q) && extends(base, q) && q.len() <= lim implies found_in(found@, n0, q) by {
                if q.len() == base.len() {
                    assert(q =~= base);
                }
                assert(q.len() > base.len());
                let m = base.len() as int;
                let s = q[m];
                let e = step_edge(s);
                assert(q[m - 1] == q.subrange(0, m)[m - 1]);
                assert(es[e].0 == node);
                let j = choose|j: int| 0 <= j < outs.len() && outs[j].0 == e;
                assert(es[outs[j].0 as int] == (node, outs[j].1, outs[j].2));
                assert(s == (outs[j].1, Some(outs[j].0)));
                let pj = base.push((outs[j].1, Some(outs[j].0)));
                assert(q.subrange(0, pj.len() as int) =~= pj) by {
                    assert forall|t: int| 0 <= t < pj.len() implies q.subrange(0, pj.len() as int)[t] == pj[t] by {
                        if t < m {
                            assert(q[t] == q.subrange(0, m)[t]);
                        }
                    }
                }
                assert(covers(es, source, mm, pj, lim, found@, n0));
            }
        }
    }
    (paths_searched, interrupted)
}

/// The outgoing edges of `source`, each once, as (edge, target, rate).
pub fn first_hops(g: &PriceGraph, source: usize) -> (r: Vec<(usize, usize, u64)>)
    requires
        source < g.nodes().len(),
        g.nodes().len() <= u32::MAX,
    ensures
        r@ == outgoing_of(g.0, source),
        forall|i: int| 0 <= i < r.len() ==> {
            let e = #[trigger] r[i];
            &&& e.0 < g.edges().len()
            &&& g.edges()[e.0 as int] == (source, e.1, e.2)
        },
        forall|i: int, j: int| 0 <= i < j < r.len() ==> r[i].0 != r[j].0,
        forall|e: int| 0 <= e < g.edges().len() && #[trigger] g.edges()[e].0 == source ==>
            exists|i: int| 0 <= i < r.len() && r[i].0 == e,
{
    graph_outgoing(&g.0, source)
}

/// Searches the branch of the cycle search that starts with edge `hop`
/// (edge, target, rate) out of `source`: returns the number of loop
/// candidates reached and whether `stop` cut the branch short, and appends
/// to `found` the branch's candidates to score, all of them unless cut
/// short. Each branch owns its path buffer, so branches may run side by side.
pub fn search_branch(
    g: &PriceGraph,
    stop: &AtomicBool,
    memo: &Memo,
    source: usize,
    hop: (usize, usize, u64),
    found: &mut Vec<PathT>,
) -> (r: (u64, bool))
    requires
        g.edges_in_range(),
        source < g.nodes().len(),
        hop.0 < g.edges().len(),
        g.edges()[hop.0 as int] == (source, hop.1, hop.2),
        all_candidates(g.edges(), source, memo_entries(*memo), old(found)@),
    ensures
        all_candidates(g.edges(), source, memo_entries(*memo), final(found)@),
        final(found)@.len() >= old(found)@.len(),
        final(found)@.subrange(0, old(found)@.len() as int) == old(found)@,
        !r.1 ==> r.0 == capped(
            loops_reached(*g, source, seq![(source, None::<usize>), (hop.1, Some(hop.0))], (MAX_DEPTH - 2) as nat),
        ),
        !r.1 ==> covers(
            g.edges(),
            source,
            memo_entries(*memo),
            seq![(source, None::<usize>), (hop.1, Some(hop.0))],
            MAX_DEPTH as int,
            final(found)@,
            old(found)@.len() as int,
        ),
{
    let (e, target, rate) = hop;
    let mut path = path_new();
    path_push(&mut path, (source, None));
    path_push(&mut path, (target, Some(e)));
    let w = next_weight(RATE_ONE, rate);
    proof {
        let p = path_steps(path);
        assert(p =~= seq![(source, None::<usize>), (target, Some(e))]);
        assert(p.drop_last().len() == 1);
        assert(path_weight(g.edges(), p.drop_last()) == RATE_ONE as nat);
        assert(path_weight(g.edges(), p) == step_weight(RATE_ONE as nat, rate));
        assert(edges_distinct(p, 1));
    }
    search(g, stop, memo, w, target, source, &mut path, MAX_DEPTH - 2, found)
}

/// What one round of the cycle search gives.
pub struct SearchOutcome {
    /// The number of loop candidates reached, capped at `u64::MAX`.
    pub paths_searched: u64,
    /// The candidates to score.
    pub found: Vec<PathT>,
    /// The search was cut short by the stop flag.
    pub interrupted: bool,
}

/// The cycle search: every branch out of `source` in turn. The candidates
/// found are cycles through `source` of at most `MAX_DEPTH` steps that
/// repeat no edge, whose weight lies in `(1.0, 1.5]`, and that the cache
/// does not hold; unless `stop` cut the search short, every such cycle is
/// found and `paths_searched` is the number of loops reached, in or out of
/// the band, cached or not. A source with no outgoing edge reads no flag.
pub fn find_path(g: &PriceGraph, stop: &AtomicBool, memo: &Memo, source: usize) -> (r: SearchOutcome)
    requires
        g.edges_in_range(),
        source < g.nodes().len(),
    ensures
        all_candidates(g.edges(), source, memo_entries(*memo), r.found@),
        !r.interrupted ==> forall|q: Seq<Step>| #[trigger] is_candidate(g.edges(), source, memo_entries(*memo), q) ==>
            found_in(r.found@, 0, q),
        (forall|e: int| 0 <= e < g.edges().len() ==> #[trigger] g.edges()[e].0 != source) ==> !r.interrupted,
        !r.interrupted ==> r.paths_searched == capped(loops_from_source(*g, source)),
{
    let ghost es = g.edges();
    let ghost mm = memo_entries(*memo);
    let hops = first_hops(g, source);
    let mut found: Vec<PathT> = Vec::new();
    let mut paths_searched: u64 = 0;
    let mut interrupted = false;
    let n = hops.len();
    proof {
        if n > 0 && forall|e: int| 0 <= e < g.edges().len() ==> #[trigger] g.edges()[e].0 != source {
            assert(g.edges()[hops[0].0 as int].0 == source);
        }
    }
    for i in 0..n
        invariant
            n == hops.len(),
            es == g.edges(),
            mm == memo_entries(*memo),
            g.edges_in_range(),
            source < g.nodes().len(),
            forall|j: int| 0 <= j < hops.len() ==> {
                let e = #[trigger] hops[j];
                &&& e.0 < g.edges().len()
                &&& g.edges()[e.0 as int] == (source, e.1, e.2)
            },
            all_candidates(es, source, mm, found@),
            n == 0 ==> !interrupted,
            hops@ == outgoing_of(g.0, source),
            !interrupted ==> paths_searched == capped(
                loops_through(*g, source, seq![(source, None::<usize>)], (MAX_DEPTH - 1) as nat, i as nat),
            ),
            !interrupted ==> forall|j: int| 0 <= j < i ==>
                covers(es, source, mm, seq![(source, None::<usize>), ((#[trigger] hops[j]).1, Some(hops[j].0))], MAX_DEPTH as int, found@, 0),
    {
        let hop = hops[i];
        let ghost before = found@;
        let sub = search_branch(g, stop, memo, source, hop, &mut found);
        proof {
            if !interrupted && !sub.1 {
                assert forall|j: int| 0 <= j < i + 1 implies
                    covers(es, source, mm, seq![(source, None::<usize>), ((#[trigger] hops[j]).1, Some(hops[j].0))], MAX_DEPTH as int, found@, 0) by {
                    let pj = seq![(source, None::<usize>), (hops[j].1, Some(hops[j].0))];
                    if j < i {
                        lemma_covers_grow(es, source, mm, pj, MAX_DEPTH as int, before, found@, 0);
                    } else {
                        assert forall|q: Seq<Step>| #[trigger] is_candidate(es, source, mm, q) && extends(pj, q) && q.len() <= MAX_DEPTH implies found_in(found@, 0, q) by {
                            let x = choose|x: int| before.len() <= x < found@.len() && #[trigger] path_steps(found@[x]) == q;
                        }
                    }
                }
            }
        }
        proof {
            let root = seq![(source, None::<usize>)];
            assert(root.last().0 == source);
            assert(root.push((hop.1, Some(hop.0))) =~= seq![(source, None::<usize>), (hop.1, Some(hop.0))]);
        }
        paths_searched = add_capped(paths_searched, sub.0);
        interrupted = interrupted || sub.1;
    }
    proof {
        if !interrupted {
            assert forall|q: Seq<Step>| #[trigger] is_candidate(es, source, mm, q) implies found_in(found@, 0, q) by {
                let s = q[1];
                let e = step_edge(s);
                assert(es[e].0 == source);
                let j = choose|j: int| 0 <= j < hops.len() && hops[j].0 == e;
                assert(es[hops[j].0 as int] == (source, hops[j].1, hops[j].2));
                assert(s == (hops[j].1, Some(hops[j].0)));
                let pj = seq![(source, None::<usize>), (hops[j].1, Some(hops[j].0))];
                assert(q.subrange(0, 2) =~= pj);
                assert(covers(es, source, mm, pj, MAX_DEPTH as int, found@, 0));
            }
        }
    }
    SearchOutcome { paths_searched, found, interrupted }
}

/// A path touches a changed venue: one of its edges belongs to a venue whose
/// address is on the list.
pub open spec fn touches(p: Seq<Step>, pools: Seq<crate::trading_graph::EdgeVenue>, changed: Seq<Address>) -> bool {
    exists|k: int| 0 <= k < p.len() && (#[trigger] p[k]).1 is Some && step_edge(p[k]) < pools.len()
        && changed.contains(pools[step_edge(p[k])].address)
}

/// Whether path `p` touches a changed venue.
fn path_touches(p: &PathT, db: &Database, changed: &Vec<Address>) -> (r: bool)
    ensures
        r == touches(path_steps(*p), db.pools@, changed@),
{
    let n = path_len(p);
    for k in 0..n
        invariant
            n == path_steps(*p).len(),
            forall|j: int| 0 <= j < k ==> !({
                let s = #[trigger] path_steps(*p)[j];
                s.1 is Some && step_edge(s) < db.pools@.len() && changed@.contains(db.pools@[step_edge(s)].address)
            }),
    {
        let s = path_get(p, k);
        match s.1 {
            Some(e) => {
                if e < db.pools.len() && list_contains(changed, db.pools[e].address) {
                    return true;
                }
            },
            None => {},
        }
    }
    false
}

/// Drops from the cache every path that touches a changed venue, keeping the
/// others with their scores; returns how many paths were dropped.
pub fn cache_invalidation(db: &Database, memo: &mut Memo, changed_pools: &Vec<Address>) -> (r: usize)
    ensures
        forall|k: Seq<Step>| #[trigger] memo_entries(*final(memo)).contains_key(k) <==>
            (memo_entries(*old(memo)).contains_key(k) && !touches(k, db.pools@, changed_pools@)),
        forall|k: Seq<Step>| #[trigger] memo_entries(*final(memo)).contains_key(k) ==>
            memo_entries(*final(memo))[k] == memo_entries(*old(memo))[k],
        r as nat == memo_entries(*old(memo)).dom().filter(|k: Seq<Step>| touches(k, db.pools@, changed_pools@)).len(),
        memo_entries(*old(memo)).dom().finite(),
        memo_entries(*final(memo)).dom().finite(),
        r as int == memo_entries(*old(memo)).dom().len() - memo_entries(*final(memo)).dom().len(),
{
    let ghost m0 = memo_entries(*memo);
    let keys = memo_keys(memo);
    let ghost ks = keys@.map_values(|p: PathT| path_steps(p));
    let ghost mut removed: Seq<Seq<Step>> = Seq::empty();
    let mut count: usize = 0;
    let n = keys.len();
    for i in 0..n
        invariant
            n == keys.len(),
            ks == keys@.map_values(|p: PathT| path_steps(p)),
            forall|a: int, b: int| 0 <= a < b < n ==> ks[a] != ks[b],
            forall|a: int| 0 <= a < n ==> m0.contains_key(#[trigger] ks[a]),
            forall|k: Seq<Step>| #[trigger] memo_entries(*memo).contains_key(k) <==>
                (m0.contains_key(k) && !(touches(k, db.pools@, changed_pools@) && ks.subrange(0, i as int).contains(k))),
            forall|k: Seq<Step>| #[trigger] memo_entries(*memo).contains_key(k) ==> memo_entries(*memo)[k] == m0[k],
            removed.no_duplicates(),
            forall|k: Seq<Step>| #[trigger] removed.contains(k) <==>
                (touches(k, db.pools@, changed_pools@) && ks.subrange(0, i as int).contains(k)),
            count == removed.len(),
            count <= i,
    {
        let t = path_touches(&keys[i], db, changed_pools);
        let ghost pre = ks.subrange(0, i as int);
        let ghost cur = ks.subrange(0, i as int + 1);
        proof {
            assert(ks[i as int] == path_steps(keys@[i as int]));
            assert forall|k: Seq<Step>| cur.contains(k) <==> (pre.contains(k) || k == ks[i as int]) by {
                if cur.contains(k) {
                    let j = choose|j: int| 0 <= j < cur.len() && #[trigger] cur[j] == k;
                    if j < i {
                        assert(pre[j] == k);
                    }
                }
                if pre.contains(k) {
                    let j = choose|j: int| 0 <= j < pre.len() && #[trigger] pre[j] == k;
                    assert(cur[j] == k);
                }
                if k == ks[i as int] {
                    assert(cur[i as int] == k);
                }
            }
            assert(!pre.contains(ks[i as int])) by {
                if pre.contains(ks[i as int]) {
                    let j = choose|j: int| 0 <= j < pre.len() && #[trigger] pre[j] == ks[i as int];
                    assert(ks[j] == ks[i as int]);
                }
            }
        }
        if t {
            memo_remove(memo, &keys[i]);
            proof {
                let k0 = ks[i as int];
                assert(!removed.contains(k0));
                let ghost old_removed = removed;
                removed = removed.push(k0);
                assert(removed.drop_last() =~= old_removed);
                assert forall|k: Seq<Step>| #[trigger] removed.contains(k) <==>
                    (touches(k, db.pools@, changed_pools@) && cur.contains(k)) by {
                    if removed.contains(k) {
                        let j = choose|j: int| 0 <= j < removed.len() && #[trigger] removed[j] == k;
                        if j < old_removed.len() {
                            assert(old_removed[j] == k);
                            assert(old_removed.contains(k));
                        }
                    }
                    if touches(k, db.pools@, changed_pools@) && cur.contains(k) {
                        if k == k0 {
                            assert(removed[old_removed.len() as int] == k0);
                        } else {
                            assert(old_removed.contains(k));
                            let j = choose|j: int| 0 <= j < old_removed.len() && #[trigger] old_removed[j] == k;
                            assert(removed[j] == k);
                        }
                    }
                }
                assert forall|a: int, b: int| 0 <= a < removed.len() && 0 <= b < removed.len() && a != b
                    implies removed[a] != removed[b] by {
                    if a < old_removed.len() && b < old_removed.len() {
                        assert(old_removed[a] == removed[a] && old_removed[b] == removed[b]);
                    } else if a < old_removed.len() {
                        assert(old_removed.contains(removed[a]));
                    } else {
                        assert(old_removed.contains(removed[b]));
                    }
                }
            }
            count = count + 1;
        } else {
            proof {
                assert forall|k: Seq<Step>| #[trigger] removed.contains(k) <==>
                    (touches(k, db.pools@, changed_pools@) && cur.contains(k)) by {}
            }
        }
    }
    proof {
        assert(ks.subrange(0, n as int) =~= ks);
        let s = m0.dom().filter(|k: Seq<Step>| touches(k, db.pools@, changed_pools@));
        assert forall|k: Seq<Step>| ks.contains(k) <==> m0.contains_key(k) by {
            if m0.contains_key(k) {
                let j = choose|j: int| 0 <= j < keys.len() && #[trigger] path_steps(keys@[j]) == k;
                assert(ks[j] == k);
            }
            if ks.contains(k) {
                let j = choose|j: int| 0 <= j < ks.len() && #[trigger] ks[j] == k;
                assert(m0.contains_key(ks[j]));
            }
        }
        assert(removed.to_set() =~= s);
        removed.unique_seq_to_set();
        let d = m0.dom();
        assert(d =~= ks.to_set());
        ks.lemma_cardinality_of_set();
        d.lemma_len_filter(|k: Seq<Step>| touches(k, db.pools@, changed_pools@));
        let kept = d.filter(|k: Seq<Step>| !touches(k, db.pools@, changed_pools@));
        d.lemma_len_filter(|k: Seq<Step>| !touches(k, db.pools@, changed_pools@));
        assert(memo_entries(*memo).dom() =~= kept);
        assert(s.disjoint(kept));
        assert(s + kept =~= d);
        vstd::set_lib::lemma_set_disjoint_lens(s, kept);
    }
    count
}

} // verus!
