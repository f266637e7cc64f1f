//! In-degree elimination, and the replay of the connections that tells the
//! dependencies from the connections that close a cycle.

use vstd::prelude::*;
use crate::render::order::{
    ascending, closes_cycle, dependencies, eligible, extend, first_eligible, is_path,
    is_topological, joins, lemma_ascending_distinct, lemma_decide, lemma_dependencies_step,
    lemma_first_eligible, lemma_joins_push, lemma_path_forward, processing_order, reaches,
    ready, schedule, Edge, NodeId,
};

verus! {

/// The edge still holds `v` back: it leads to `v` from a node that is not
/// placed.
pub open spec fn blocks(e: Edge, placed: Seq<NodeId>, v: NodeId) -> bool {
    e.destination == v && !placed.contains(e.source)
}

/// How many of the first `upto` edges of `deps` still hold `v` back: the
/// in-degree of `v` among them once the nodes of `placed` are eliminated.
pub open spec fn blockers(deps: Seq<Edge>, placed: Seq<NodeId>, v: NodeId, upto: int) -> int
    decreases upto,
{
    if upto <= 0 {
        0
    } else {
        blockers(deps, placed, v, upto - 1) + if blocks(deps[upto - 1], placed, v) {
            1int
        } else {
            0int
        }
    }
}

/// Each pair of `ends` gives the positions in `ids` of the source and the
/// destination of the edge of `deps` at the same place.
pub open spec fn ranked(ids: Seq<NodeId>, ends: Seq<(usize, usize)>, deps: Seq<Edge>) -> bool {
    &&& ends.len() == deps.len()
    &&& forall|k: int|
        0 <= k < ends.len() ==> {
            &&& (#[trigger] ends[k]).0 < ids.len()
            &&& ends[k].1 < ids.len()
            &&& ids[ends[k].0 as int] == deps[k].source
            &&& ids[ends[k].1 as int] == deps[k].destination
        }
}

/// The count of what holds a node back is at least zero and grows with
/// the number of edges counted.
proof fn lemma_blockers_grow(deps: Seq<Edge>, placed: Seq<NodeId>, v: NodeId, a: int, b: int)
    requires
        0 <= a <= b,
    ensures
        0 <= blockers(deps, placed, v, a) <= blockers(deps, placed, v, b) <= b,
    decreases b,
{
    if b > 0 {
        if a < b {
            lemma_blockers_grow(deps, placed, v, a, b - 1);
        } else {
            lemma_blockers_grow(deps, placed, v, a - 1, b - 1);
        }
    }
}

/// Nothing holds a node back exactly when no edge counted does.
proof fn lemma_blockers_none(deps: Seq<Edge>, placed: Seq<NodeId>, v: NodeId, upto: int)
    requires
        0 <= upto <= deps.len(),
    ensures
        blockers(deps, placed, v, upto) == 0 <==> forall|k: int|
            0 <= k < upto ==> !blocks(#[trigger] deps[k], placed, v),
    decreases upto,
{
    if upto > 0 {
        lemma_blockers_none(deps, placed, v, upto - 1);
        lemma_blockers_grow(deps, placed, v, 0, upto - 1);
    }
}

/// A node is ready exactly when its in-degree has come down to zero.
proof fn lemma_ready_at_zero(deps: Seq<Edge>, placed: Seq<NodeId>, v: NodeId)
    ensures
        blockers(deps, placed, v, deps.len() as int) == 0 <==> ready(deps, placed, v),
{
    lemma_blockers_none(deps, placed, v, deps.len() as int);
}

/// What a sequence holds after one more node was placed.
proof fn lemma_pushed_contains(placed: Seq<NodeId>, u: NodeId, x: NodeId)
    ensures
        placed.push(u).contains(x) <==> placed.contains(x) || x == u,
{
    let next = placed.push(u);
    if placed.contains(x) {
        let i = choose|i: int| 0 <= i < placed.len() && placed[i] == x;
        assert(next[i] == x);
    }
    if x == u {
        assert(next[placed.len() as int] == x);
    }
}

/// When no node before position `i` can be placed and the node at `i` can,
/// or `i` is past the last node, `first_eligible` is `i`.
proof fn lemma_first_eligible_is(nodes: Seq<NodeId>, deps: Seq<Edge>, placed: Seq<NodeId>, i: int)
    requires
        0 <= i <= nodes.len(),
        forall|j: int| 0 <= j < i ==> !eligible(deps, placed, #[trigger] nodes[j]),
        i < nodes.len() ==> eligible(deps, placed, nodes[i]),
    ensures
        first_eligible(nodes, deps, placed, 0) == i,
{
    lemma_first_eligible(nodes, deps, placed, 0);
}

/// The position of `id` in `ids`, by binary search.
pub(crate) fn find(ids: &Vec<NodeId>, id: NodeId) -> (r: Option<usize>)
    requires
        ascending(ids@),
    ensures
        r matches Some(i) ==> i < ids.len() && ids[i as int] == id,
        r is None ==> !ids@.contains(id),
{
    let mut low: usize = 0;
    let mut high: usize = ids.len();
    while low < high
        invariant
            low <= high <= ids.len(),
            ascending(ids@),
            forall|j: int| 0 <= j < low ==> (#[trigger] ids[j]).0 < id.0,
            forall|j: int| high <= j < ids.len() ==> id.0 < (#[trigger] ids[j]).0,
        decreases high - low,
    {
        let mid = low + (high - low) / 2;
        let at = ids[mid];
        if at.0 == id.0 {
            return Some(mid);
        } else if at.0 < id.0 {
            low = mid + 1;
        } else {
            high = mid;
        }
    }
    None
}

/// In-degree elimination over the nodes `ids` and the edges `deps`, which
/// `ends` gives by position. Counts for every node the edges that hold it
/// back; places, as long as there is one, the first node that is held back
/// by none; and takes the placed node's outgoing edges off the counts.
pub(crate) fn eliminate(
    ids: &Vec<NodeId>,
    ends: &Vec<(usize, usize)>,
    Ghost(deps): Ghost<Seq<Edge>>,
) -> (order: Vec<NodeId>)
    requires
        ascending(ids@),
        ranked(ids@, ends@, deps),
    ensures
        order@ == schedule(ids@, deps),
{
    let n = ids.len();
    let m = ends.len();
    proof {
        lemma_ascending_distinct(ids@);
    }
    let mut indegree: Vec<usize> = Vec::new();
    let mut done: Vec<bool> = Vec::new();
    let mut j: usize = 0;
    while j < n
        invariant
            j <= n,
            indegree.len() == j,
            done.len() == j,
            forall|i: int| 0 <= i < j ==> indegree[i] == 0 && !done[i],
        decreases n - j,
    {
        indegree.push(0);
        done.push(false);
        j += 1;
    }
    let mut k: usize = 0;
    while k < m
        invariant
            k <= m,
            m == ends.len(),
            n == ids.len(),
            indegree.len() == n,
            ids@.no_duplicates(),
            ranked(ids@, ends@, deps),
            forall|i: int|
                0 <= i < n ==> indegree[i] == blockers(deps, Seq::empty(), #[trigger] ids[i], k as int),
        decreases m - k,
    {
        let d = ends[k].1;
        proof {
            lemma_blockers_grow(deps, Seq::empty(), ids[d as int], k as int, k as int);
        }
        indegree.set(d, indegree[d] + 1);
        k += 1;
    }
    let mut order: Vec<NodeId> = Vec::new();
    let mut round: usize = 0;
    let mut stuck = false;
    while round < n && !stuck
        invariant
            round <= n,
            round == order.len(),
            m == ends.len(),
            n == ids.len(),
            indegree.len() == n,
            done.len() == n,
            ids@.no_duplicates(),
            ranked(ids@, ends@, deps),
            stuck ==> order@ == schedule(ids@, deps),
            !stuck ==> extend(ids@, deps, order@, (n - round) as nat) == schedule(ids@, deps),
            forall|i: int| 0 <= i < n ==> (done[i] <==> order@.contains(#[trigger] ids[i])),
            forall|i: int|
                0 <= i < n ==> indegree[i] == blockers(deps, order@, #[trigger] ids[i], m as int),
        decreases n - round + if stuck { 0int } else { 1int },
    {
        let mut i: usize = 0;
        while i < n && (done[i] || indegree[i] != 0)
            invariant
                i <= n,
                n == ids.len(),
                indegree.len() == n,
                done.len() == n,
                m == deps.len(),
                forall|x: int| 0 <= x < n ==> (done[x] <==> order@.contains(#[trigger] ids[x])),
                forall|x: int|
                    0 <= x < n ==> indegree[x] == blockers(deps, order@, #[trigger] ids[x], m as int),
                forall|x: int| 0 <= x < i ==> !eligible(deps, order@, #[trigger] ids[x]),
            decreases n - i,
        {
            proof {
                lemma_ready_at_zero(deps, order@, ids[i as int]);
            }
            i += 1;
        }
        proof {
            if i < n {
                lemma_ready_at_zero(deps, order@, ids[i as int]);
            }
            lemma_first_eligible_is(ids@, deps, order@, i as int);
        }
        if i == n {
            stuck = true;
        } else {
            let u = ids[i];
            let ghost before = order@;
            order.push(u);
            done.set(i, true);
            proof {
                assert forall|x: int| 0 <= x < n implies (done[x] <==> order@.contains(#[trigger] ids[x])) by {
                    lemma_pushed_contains(before, u, ids[x]);
                }
            }
            let mut k: usize = 0;
            while k < m
                invariant
                    k <= m,
                    m == ends.len(),
                    n == ids.len(),
                    i < n,
                    u == ids[i as int],
                    !before.contains(u),
                    indegree.len() == n,
                    ids@.no_duplicates(),
                    ranked(ids@, ends@, deps),
                    forall|x: int|
                        0 <= x < n ==> indegree[x] == blockers(deps, before.push(u), #[trigger] ids[x], k as int)
                            + blockers(deps, before, ids[x], m as int) - blockers(
                            deps,
                            before,
                            ids[x],
                            k as int,
                        ),
                decreases m - k,
            {
                let ghost e = deps[k as int];
                if ends[k].0 == i {
                    let d = ends[k].1;
                    proof {
                        lemma_blockers_grow(deps, before, ids[d as int], k + 1, m as int);
                        lemma_blockers_grow(deps, before.push(u), ids[d as int], 0, k as int);
                    }
                    indegree.set(d, indegree[d] - 1);
                    proof {
                        assert forall|x: int| 0 <= x < n implies indegree[x] == blockers(
                            deps,
                            before.push(u),
                            #[trigger] ids[x],
                            k + 1,
                        ) + blockers(deps, before, ids[x], m as int) - blockers(deps, before, ids[x], k + 1) by {
                            lemma_pushed_contains(before, u, e.source);
                        }
                    }
                } else {
                    proof {
                        assert forall|x: int| 0 <= x < n implies indegree[x] == blockers(
                            deps,
                            before.push(u),
                            #[trigger] ids[x],
                            k + 1,
                        ) + blockers(deps, before, ids[x], m as int) - blockers(deps, before, ids[x], k + 1) by {
                            lemma_pushed_contains(before, u, e.source);
                        }
                    }
                }
                k += 1;
            }
            round += 1;
        }
    }
    order
}

/// `places[i]` is where node `ids[i]` stands in `t`.
pub open spec fn placed_at(ids: Seq<NodeId>, t: Seq<NodeId>, places: Seq<usize>) -> bool {
    &&& places.len() == ids.len()
    &&& forall|i: int| 0 <= i < ids.len() ==> (#[trigger] places[i]) < t.len() && t[places[i] as int] == ids[i]
}

/// An edge that leads forward in a topological order of the dependencies
/// closes no cycle, and the order stays topological with the edge added.
proof fn lemma_forward_edge_joins(t: Seq<NodeId>, nodes: Seq<NodeId>, prev: Seq<Edge>, e: Edge, i: int, j: int)
    requires
        joins(nodes, prev),
        is_topological(t, nodes, prev),
        0 <= i < j < t.len(),
        t[i] == e.source,
        t[j] == e.destination,
    ensures
        !reaches(prev, e.destination, e.source),
        is_topological(t, nodes, prev.push(e)),
{
    if reaches(prev, e.destination, e.source) {
        let p = choose|p: Seq<NodeId>| #[trigger] is_path(prev, p) && p[0] == e.destination && p.last() == e.source;
        lemma_path_forward(t, nodes, prev, p, p.len() - 1);
    }
}

/// A node reaches itself.
proof fn lemma_reaches_itself(deps: Seq<Edge>, v: NodeId)
    ensures
        reaches(deps, v, v),
{
    let p = seq![v];
    assert(is_path(deps, p));
}

/// Where each node of `ids` stands in `order`, which holds every node once.
fn positions(ids: &Vec<NodeId>, order: &Vec<NodeId>) -> (places: Vec<usize>)
    requires
        ascending(ids@),
        order@.no_duplicates(),
        order@.len() == ids@.len(),
        forall|v: NodeId| order@.contains(v) <==> ids@.contains(v),
    ensures
        placed_at(ids@, order@, places@),
{
    let n = ids.len();
    let mut places: Vec<usize> = Vec::new();
    let mut i: usize = 0;
    while i < n
        invariant
            i <= n,
            places.len() == i,
        decreases n - i,
    {
        places.push(0);
        i += 1;
    }
    let mut p: usize = 0;
    while p < n
        invariant
            p <= n,
            n == ids.len(),
            n == order.len(),
            places.len() == n,
            ascending(ids@),
            order@.no_duplicates(),
            forall|v: NodeId| order@.contains(v) <==> ids@.contains(v),
            forall|i: int|
                0 <= i < n && order@.take(p as int).contains(#[trigger] ids[i]) ==> places[i] < n
                    && order[places[i] as int] == ids[i],
        decreases n - p,
    {
        let v = order[p];
        let at = match find(ids, v) {
            Some(at) => at,
            None => vstd::pervasive::unreached(),
        };
        places.set(at, p);
        proof {
            lemma_ascending_distinct(ids@);
        }
        p += 1;
    }
    proof {
        assert(order@.take(n as int) =~= order@);
        assert forall|i: int| 0 <= i < n implies (#[trigger] places[i]) < order.len() && order[places[i] as int]
            == ids[i] by {
            assert(ids@.contains(ids[i]));
        }
    }
    places
}

/// Replays the connections in the order in which they were made and
/// returns the processing order, and for each connection whether it closes
/// a cycle.
///
/// The replay keeps a topological order of the dependencies found so far.
/// A connection that leads forward in it is a dependency at once. For any
/// other, in-degree elimination decides: the connection is a dependency
/// exactly when every node can still be placed with it.
pub(crate) fn resolve(ids: &Vec<NodeId>, edges: &Vec<Edge>) -> (r: (Vec<NodeId>, Vec<bool>))
    requires
        ascending(ids@),
        joins(ids@, edges@),
    ensures
        r.0@ == processing_order(ids@, edges@),
        r.1@.len() == edges@.len(),
        forall|k: int| 0 <= k < edges@.len() ==> r.1@[k] == closes_cycle(edges@, k),
{
    let n = ids.len();
    let mut ends: Vec<(usize, usize)> = Vec::new();
    let mut closing: Vec<bool> = Vec::new();
    let mut places: Vec<usize> = Vec::new();
    let mut i: usize = 0;
    while i < n
        invariant
            i <= n,
            n == ids.len(),
            places.len() == i,
            forall|x: int| 0 <= x < i ==> places[x] == x,
        decreases n - i,
    {
        places.push(i);
        i += 1;
    }
    let ghost mut deps: Seq<Edge> = Seq::empty();
    let ghost mut t: Seq<NodeId> = ids@;
    proof {
        lemma_ascending_distinct(ids@);
    }
    let mut k: usize = 0;
    while k < edges.len()
        invariant
            k <= edges.len(),
            n == ids.len(),
            ascending(ids@),
            ids@.no_duplicates(),
            joins(ids@, edges@),
            deps == dependencies(edges@.take(k as int)),
            joins(ids@, deps),
            ranked(ids@, ends@, deps),
            is_topological(t, ids@, deps),
            placed_at(ids@, t, places@),
            closing.len() == k,
            forall|j: int| 0 <= j < k ==> closing[j] == closes_cycle(edges@, j),
        decreases edges.len() - k,
    {
        let e = edges[k];
        let a = match find(ids, e.source) {
            Some(a) => a,
            None => vstd::pervasive::unreached(),
        };
        let b = match find(ids, e.destination) {
            Some(b) => b,
            None => vstd::pervasive::unreached(),
        };
        proof {
            lemma_dependencies_step(edges@, k as int);
            lemma_joins_push(ids@, deps, e);
        }
        if a == b {
            proof {
                lemma_reaches_itself(deps, e.source);
            }
            closing.push(true);
        } else if places[a] < places[b] {
            proof {
                lemma_forward_edge_joins(t, ids@, deps, e, places[a as int] as int, places[b as int] as int);
                deps = deps.push(e);
            }
            ends.push((a, b));
            closing.push(false);
        } else {
            ends.push((a, b));
            proof {
                lemma_decide(ids@, deps, e, t);
            }
            let trial = eliminate(ids, &ends, Ghost(deps.push(e)));
            if trial.len() == n {
                places = positions(ids, &trial);
                proof {
                    deps = deps.push(e);
                    t = trial@;
                }
                closing.push(false);
            } else {
                ends.pop();
                closing.push(true);
            }
        }
        k += 1;
    }
    proof {
        assert(edges@.take(k as int) =~= edges@);
    }
    let order = eliminate(ids, &ends, Ghost(deps));
    (order, closing)
}

} // verus!
