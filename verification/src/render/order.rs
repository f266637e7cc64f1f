//! The theory of the processing order.
//!
//! Nodes are processed once per quantum, producers before consumers. The
//! connections of a graph may form cycles, so the connections are replayed
//! in the order in which they were made: a connection whose destination
//! already reaches its source closes a cycle and reads the previous
//! quantum's output of its source; every other connection is a dependency.
//! The dependencies never form a cycle, and the processing order is the one
//! that always takes the ready node with the smallest identifier next.

use vstd::prelude::*;

verus! {

/// The identifier of a node. Identifiers are handed out in ascending order
/// and never reused.
#[derive(Clone, Copy, Debug, PartialEq, Eq, Hash, Structural)]
pub struct NodeId(pub u64);

/// An audio connection from an output of one node to an input of another.
#[derive(Clone, Copy, Debug, PartialEq, Eq, Hash, Structural)]
pub struct Edge {
    pub source: NodeId,
    pub output: usize,
    pub destination: NodeId,
    pub input: usize,
}

/// Identifiers in strictly ascending order.
pub open spec fn ascending(nodes: Seq<NodeId>) -> bool {
    forall|i: int, j: int| 0 <= i < j < nodes.len() ==> (#[trigger] nodes[i]).0 < (#[trigger] nodes[j]).0
}

/// Every edge joins two of the nodes.
pub open spec fn joins(nodes: Seq<NodeId>, edges: Seq<Edge>) -> bool {
    forall|k: int|
        0 <= k < edges.len() ==> nodes.contains((#[trigger] edges[k]).source) && nodes.contains(
            edges[k].destination,
        )
}

/// Some edge of `deps` leads from `a` to `b`.
pub open spec fn linked(deps: Seq<Edge>, a: NodeId, b: NodeId) -> bool {
    exists|k: int| 0 <= k < deps.len() && (#[trigger] deps[k]).source == a && deps[k].destination == b
}

/// `p` walks along edges of `deps`. A single node is a path to itself.
pub open spec fn is_path(deps: Seq<Edge>, p: Seq<NodeId>) -> bool {
    &&& p.len() >= 1
    &&& forall|i: int| 0 <= i < p.len() - 1 ==> linked(deps, #[trigger] p[i], p[i + 1])
}

/// Some path of `deps` leads from `a` to `b`.
pub open spec fn reaches(deps: Seq<Edge>, a: NodeId, b: NodeId) -> bool {
    exists|p: Seq<NodeId>| #[trigger] is_path(deps, p) && p[0] == a && p.last() == b
}

/// No path of one edge or more returns to where it started.
pub open spec fn acyclic(deps: Seq<Edge>) -> bool {
    forall|p: Seq<NodeId>| #[trigger] is_path(deps, p) && p.len() >= 2 ==> p[0] != p.last()
}

/// The connections that order the nodes: each connection, in the order in
/// which the connections were made, unless its destination already reaches
/// its source through the dependencies before it.
pub open spec fn dependencies(edges: Seq<Edge>) -> Seq<Edge>
    decreases edges.len(),
{
    if edges.len() == 0 {
        Seq::empty()
    } else {
        let earlier = dependencies(edges.drop_last());
        let e = edges.last();
        if reaches(earlier, e.destination, e.source) {
            earlier
        } else {
            earlier.push(e)
        }
    }
}

/// Whether connection `k` closes a cycle, and so is no dependency.
pub open spec fn closes_cycle(edges: Seq<Edge>, k: int) -> bool {
    reaches(dependencies(edges.take(k)), edges[k].destination, edges[k].source)
}

/// Every producer that `v` depends on is in `placed`.
pub open spec fn ready(deps: Seq<Edge>, placed: Seq<NodeId>, v: NodeId) -> bool {
    forall|k: int|
        0 <= k < deps.len() && (#[trigger] deps[k]).destination == v ==> placed.contains(
            deps[k].source,
        )
}

/// `v` can be placed next.
pub open spec fn eligible(deps: Seq<Edge>, placed: Seq<NodeId>, v: NodeId) -> bool {
    !placed.contains(v) && ready(deps, placed, v)
}

/// The position in `nodes`, at or after `from`, of the first node that can
/// be placed next; the length of `nodes` if there is none.
pub open spec fn first_eligible(nodes: Seq<NodeId>, deps: Seq<Edge>, placed: Seq<NodeId>, from: int) -> int
    decreases nodes.len() - from,
{
    if from < 0 || from >= nodes.len() {
        nodes.len() as int
    } else if eligible(deps, placed, nodes[from]) {
        from
    } else {
        first_eligible(nodes, deps, placed, from + 1)
    }
}

/// `placed`, extended by up to `rounds` nodes, each the first that can be
/// placed next.
pub open spec fn extend(nodes: Seq<NodeId>, deps: Seq<Edge>, placed: Seq<NodeId>, rounds: nat) -> Seq<NodeId>
    decreases rounds,
{
    let i = first_eligible(nodes, deps, placed, 0);
    if rounds == 0 || i >= nodes.len() {
        placed
    } else {
        extend(nodes, deps, placed.push(nodes[i]), (rounds - 1) as nat)
    }
}

/// The nodes in the order in which in-degree elimination places them,
/// taking the smallest identifier among the ready nodes at every step.
pub open spec fn schedule(nodes: Seq<NodeId>, deps: Seq<Edge>) -> Seq<NodeId> {
    extend(nodes, deps, Seq::empty(), nodes.len())
}

/// The order in which the nodes are processed in each quantum.
pub open spec fn processing_order(nodes: Seq<NodeId>, edges: Seq<Edge>) -> Seq<NodeId> {
    schedule(nodes, dependencies(edges))
}

/// `order` holds every node once, and no edge of `deps` leads from a node
/// to itself or to a node before it.
pub open spec fn is_topological(order: Seq<NodeId>, nodes: Seq<NodeId>, deps: Seq<Edge>) -> bool {
    &&& order.no_duplicates()
    &&& forall|v: NodeId| order.contains(v) <==> nodes.contains(v)
    &&& forall|i: int, j: int|
        0 <= i <= j < order.len() ==> !linked(deps, #[trigger] order[j], #[trigger] order[i])
}

/// `a` stands before `b` in `order`.
pub open spec fn precedes(order: Seq<NodeId>, a: NodeId, b: NodeId) -> bool {
    exists|i: int, j: int| 0 <= i < j < order.len() && #[trigger] order[i] == a && #[trigger] order[j] == b
}

/// Each node of `placed` was ready when it was placed, and none was placed
/// twice.
pub open spec fn orderly(nodes: Seq<NodeId>, deps: Seq<Edge>, placed: Seq<NodeId>) -> bool {
    &&& placed.no_duplicates()
    &&& forall|j: int| 0 <= j < placed.len() ==> nodes.contains(#[trigger] placed[j])
    &&& forall|j: int| 0 <= j < placed.len() ==> #[trigger] ready(deps, placed.take(j), placed[j])
}

/// A node that `a` lacks, if `a` is shorter than `b`.
pub proof fn lemma_missing(a: Seq<NodeId>, b: Seq<NodeId>) -> (i: int)
    requires
        b.no_duplicates(),
        a.len() < b.len(),
    ensures
        0 <= i < b.len(),
        !a.contains(b[i]),
{
    if forall|i: int| 0 <= i < b.len() ==> a.contains(#[trigger] b[i]) {
        vstd::seq_lib::seq_to_set_is_finite(a);
        vstd::set_lib::lemma_len_subset(b.to_set(), a.to_set());
        b.unique_seq_to_set();
        a.lemma_cardinality_of_set();
    }
    choose|i: int| 0 <= i < b.len() && !a.contains(#[trigger] b[i])
}

/// A sequence without repetition that stays within `b` and is as long as
/// `b` holds every member of `b`.
pub proof fn lemma_full(a: Seq<NodeId>, b: Seq<NodeId>)
    requires
        a.no_duplicates(),
        b.no_duplicates(),
        a.len() == b.len(),
        forall|j: int| 0 <= j < a.len() ==> b.contains(#[trigger] a[j]),
    ensures
        forall|v: NodeId| a.contains(v) <==> b.contains(v),
{
    assert forall|v: NodeId| b.contains(v) implies a.contains(v) by {
        if !a.contains(v) {
            let rest = b.to_set().remove(v);
            vstd::seq_lib::seq_to_set_is_finite(b);
            vstd::set_lib::lemma_len_subset(a.to_set(), rest);
            a.unique_seq_to_set();
            b.unique_seq_to_set();
        }
    }
}

/// Two sequences without repetition that hold the same nodes are equally
/// long.
pub proof fn lemma_same_length(a: Seq<NodeId>, b: Seq<NodeId>)
    requires
        a.no_duplicates(),
        b.no_duplicates(),
        forall|v: NodeId| a.contains(v) <==> b.contains(v),
    ensures
        a.len() == b.len(),
{
    assert(a.to_set() =~= b.to_set());
    a.unique_seq_to_set();
    b.unique_seq_to_set();
}

/// Ascending identifiers do not repeat.
pub proof fn lemma_ascending_distinct(nodes: Seq<NodeId>)
    requires
        ascending(nodes),
    ensures
        nodes.no_duplicates(),
{
}

/// What `first_eligible` finds: the first node at or after `from` that can
/// be placed, if there is one.
pub proof fn lemma_first_eligible(nodes: Seq<NodeId>, deps: Seq<Edge>, placed: Seq<NodeId>, from: int)
    requires
        0 <= from <= nodes.len(),
    ensures
        from <= first_eligible(nodes, deps, placed, from) <= nodes.len(),
        first_eligible(nodes, deps, placed, from) < nodes.len() ==> eligible(
            deps,
            placed,
            nodes[first_eligible(nodes, deps, placed, from)],
        ),
        forall|j: int|
            from <= j < first_eligible(nodes, deps, placed, from) ==> !eligible(
                deps,
                placed,
                #[trigger] nodes[j],
            ),
    decreases nodes.len() - from,
{
    if from < nodes.len() && !eligible(deps, placed, nodes[from]) {
        lemma_first_eligible(nodes, deps, placed, from + 1);
    }
}

/// One more node can be placed without breaking the order.
pub proof fn lemma_orderly_push(nodes: Seq<NodeId>, deps: Seq<Edge>, placed: Seq<NodeId>, v: NodeId)
    requires
        orderly(nodes, deps, placed),
        nodes.contains(v),
        eligible(deps, placed, v),
    ensures
        orderly(nodes, deps, placed.push(v)),
{
    let next = placed.push(v);
    assert forall|j: int| 0 <= j < next.len() implies #[trigger] ready(deps, next.take(j), next[j]) by {
        if j < placed.len() {
            assert(next.take(j) =~= placed.take(j));
        } else {
            assert(next.take(j) =~= placed);
        }
    }
}

/// What `extend` returns: `placed` followed by nodes that were each ready
/// in turn; and it stops early only when no node can be placed.
pub proof fn lemma_extend(nodes: Seq<NodeId>, deps: Seq<Edge>, placed: Seq<NodeId>, rounds: nat)
    requires
        orderly(nodes, deps, placed),
    ensures
        orderly(nodes, deps, extend(nodes, deps, placed, rounds)),
        placed.len() <= extend(nodes, deps, placed, rounds).len() <= placed.len() + rounds,
        extend(nodes, deps, placed, rounds).take(placed.len() as int) == placed,
        extend(nodes, deps, placed, rounds).len() == placed.len() + rounds || first_eligible(
            nodes,
            deps,
            extend(nodes, deps, placed, rounds),
            0,
        ) >= nodes.len(),
    decreases rounds,
{
    let i = first_eligible(nodes, deps, placed, 0);
    lemma_first_eligible(nodes, deps, placed, 0);
    if !(rounds == 0 || i >= nodes.len()) {
        let next = placed.push(nodes[i]);
        lemma_orderly_push(nodes, deps, placed, nodes[i]);
        lemma_extend(nodes, deps, next, (rounds - 1) as nat);
    }
}

/// In an orderly sequence no edge leads from a node to itself or to a node
/// before it.
pub proof fn lemma_orderly_forward(nodes: Seq<NodeId>, deps: Seq<Edge>, placed: Seq<NodeId>)
    requires
        orderly(nodes, deps, placed),
    ensures
        forall|i: int, j: int|
            0 <= i <= j < placed.len() ==> !linked(deps, #[trigger] placed[j], #[trigger] placed[i]),
{
    assert forall|i: int, j: int| 0 <= i <= j < placed.len() implies !linked(
        deps,
        #[trigger] placed[j],
        #[trigger] placed[i],
    ) by {
        if linked(deps, placed[j], placed[i]) {
            assert(ready(deps, placed.take(i), placed[i]));
        }
    }
}

/// If in-degree elimination places every node, its result is a topological
/// order.
pub proof fn lemma_complete_is_topological(nodes: Seq<NodeId>, deps: Seq<Edge>)
    requires
        nodes.no_duplicates(),
        schedule(nodes, deps).len() == nodes.len(),
    ensures
        is_topological(schedule(nodes, deps), nodes, deps),
{
    let r = schedule(nodes, deps);
    lemma_extend(nodes, deps, Seq::empty(), nodes.len());
    lemma_orderly_forward(nodes, deps, r);
    lemma_full(r, nodes);
}

/// The first node of `t` that `placed` lacks.
proof fn lemma_earliest_missing(placed: Seq<NodeId>, t: Seq<NodeId>, from: int, bound: int) -> (i: int)
    requires
        0 <= from <= bound < t.len(),
        !placed.contains(t[bound]),
        forall|j: int| 0 <= j < from ==> placed.contains(#[trigger] t[j]),
    ensures
        0 <= i < t.len(),
        !placed.contains(t[i]),
        forall|j: int| 0 <= j < i ==> placed.contains(#[trigger] t[j]),
    decreases bound - from,
{
    if !placed.contains(t[from]) {
        from
    } else {
        lemma_earliest_missing(placed, t, from + 1, bound)
    }
}

/// A node that can be placed is found.
pub proof fn lemma_eligible_found(nodes: Seq<NodeId>, deps: Seq<Edge>, placed: Seq<NodeId>, v: NodeId)
    requires
        nodes.contains(v),
        eligible(deps, placed, v),
    ensures
        first_eligible(nodes, deps, placed, 0) < nodes.len(),
{
    lemma_first_eligible(nodes, deps, placed, 0);
}

/// While a topological order exists, some node that is not yet placed can
/// be placed.
pub proof fn lemma_progress(nodes: Seq<NodeId>, deps: Seq<Edge>, t: Seq<NodeId>, placed: Seq<NodeId>)
    requires
        nodes.no_duplicates(),
        joins(nodes, deps),
        is_topological(t, nodes, deps),
        placed.len() < nodes.len(),
    ensures
        first_eligible(nodes, deps, placed, 0) < nodes.len(),
{
    lemma_same_length(t, nodes);
    let some = lemma_missing(placed, t);
    let i = lemma_earliest_missing(placed, t, 0, some);
    let v = t[i];
    lemma_eligible_found(nodes, deps, placed, v);
}

/// While a topological order exists, in-degree elimination places every
/// node.
pub proof fn lemma_extend_completes(
    nodes: Seq<NodeId>,
    deps: Seq<Edge>,
    t: Seq<NodeId>,
    placed: Seq<NodeId>,
    rounds: nat,
)
    requires
        nodes.no_duplicates(),
        joins(nodes, deps),
        is_topological(t, nodes, deps),
        orderly(nodes, deps, placed),
        placed.len() + rounds == nodes.len(),
    ensures
        extend(nodes, deps, placed, rounds).len() == nodes.len(),
    decreases rounds,
{
    if rounds > 0 {
        lemma_progress(nodes, deps, t, placed);
        let i = first_eligible(nodes, deps, placed, 0);
        lemma_first_eligible(nodes, deps, placed, 0);
        lemma_orderly_push(nodes, deps, placed, nodes[i]);
        lemma_extend_completes(nodes, deps, t, placed.push(nodes[i]), (rounds - 1) as nat);
    }
}

/// Whenever a topological order exists, the schedule is one.
pub proof fn lemma_schedule_topological(nodes: Seq<NodeId>, deps: Seq<Edge>, t: Seq<NodeId>)
    requires
        nodes.no_duplicates(),
        joins(nodes, deps),
        is_topological(t, nodes, deps),
    ensures
        is_topological(schedule(nodes, deps), nodes, deps),
{
    lemma_extend_completes(nodes, deps, t, Seq::empty(), nodes.len());
    lemma_complete_is_topological(nodes, deps);
}

/// An edge of `deps` between two nodes of a topological order leads
/// forward in it.
pub proof fn lemma_edge_forward(t: Seq<NodeId>, nodes: Seq<NodeId>, deps: Seq<Edge>, a: NodeId, b: NodeId)
    requires
        is_topological(t, nodes, deps),
        joins(nodes, deps),
        linked(deps, a, b),
    ensures
        precedes(t, a, b),
{
}

/// Along a path, positions in a topological order only grow.
pub proof fn lemma_path_forward(t: Seq<NodeId>, nodes: Seq<NodeId>, deps: Seq<Edge>, p: Seq<NodeId>, m: int)
    requires
        is_topological(t, nodes, deps),
        joins(nodes, deps),
        is_path(deps, p),
        1 <= m < p.len(),
    ensures
        precedes(t, p[0], p[m]),
    decreases m,
{
    lemma_edge_forward(t, nodes, deps, p[m - 1], p[m]);
    if m > 1 {
        lemma_path_forward(t, nodes, deps, p, m - 1);
    }
}

/// Edges that have a topological order form no cycle.
pub proof fn lemma_topological_acyclic(t: Seq<NodeId>, nodes: Seq<NodeId>, deps: Seq<Edge>)
    requires
        is_topological(t, nodes, deps),
        joins(nodes, deps),
    ensures
        acyclic(deps),
{
    assert forall|p: Seq<NodeId>| #[trigger] is_path(deps, p) && p.len() >= 2 implies p[0] != p.last() by {
        lemma_path_forward(t, nodes, deps, p, p.len() - 1);
    }
}

/// A path stays a path when edges are added.
pub proof fn lemma_path_monotone(a: Seq<Edge>, b: Seq<Edge>, p: Seq<NodeId>)
    requires
        a.is_prefix_of(b),
        is_path(a, p),
    ensures
        is_path(b, p),
{
}

/// A path followed by one more edge is a path.
pub proof fn lemma_path_push(deps: Seq<Edge>, p: Seq<NodeId>, v: NodeId)
    requires
        is_path(deps, p),
        linked(deps, p.last(), v),
    ensures
        is_path(deps, p.push(v)),
{
}

/// An edge whose destination reaches its source cannot be added to the
/// dependencies: no topological order would be left.
pub proof fn lemma_cycle_blocks(t: Seq<NodeId>, nodes: Seq<NodeId>, prev: Seq<Edge>, e: Edge)
    requires
        joins(nodes, prev.push(e)),
        reaches(prev, e.destination, e.source),
    ensures
        !is_topological(t, nodes, prev.push(e)),
{
    if is_topological(t, nodes, prev.push(e)) {
        let all = prev.push(e);
        let p = choose|p: Seq<NodeId>| #[trigger] is_path(prev, p) && p[0] == e.destination && p.last() == e.source;
        lemma_path_monotone(prev, all, p);
        assert(all[prev.len() as int] == e);
        lemma_path_push(all, p, e.destination);
        lemma_topological_acyclic(t, nodes, all);
    }
}

/// Where in-degree elimination is stuck after one edge `e` was added to
/// edges that have a topological order, every node that is left is
/// reached from the destination of `e`, and the source of `e` is left too.
proof fn lemma_walk_back(
    nodes: Seq<NodeId>,
    prev: Seq<Edge>,
    e: Edge,
    t: Seq<NodeId>,
    r: Seq<NodeId>,
    i: int,
)
    requires
        joins(nodes, prev),
        is_topological(t, nodes, prev),
        forall|j: int| 0 <= j < nodes.len() ==> !eligible(prev.push(e), r, #[trigger] nodes[j]),
        0 <= i < t.len(),
        !r.contains(t[i]),
    ensures
        reaches(prev, e.destination, t[i]),
        !r.contains(e.source),
    decreases i,
{
    let all = prev.push(e);
    let y = t[i];
    assert(t.contains(y));
    let k = choose|k: int| 0 <= k < all.len() && (#[trigger] all[k]).destination == y && !r.contains(all[k].source);
    if k == prev.len() {
        let p = seq![y];
        assert(is_path(prev, p));
    } else {
        let z = prev[k].source;
        let m = choose|m: int| 0 <= m < t.len() && t[m] == z;
        lemma_walk_back(nodes, prev, e, t, r, m);
        let p = choose|p: Seq<NodeId>| #[trigger] is_path(prev, p) && p[0] == e.destination && p.last() == z;
        lemma_path_push(prev, p, y);
    }
}

/// If in-degree elimination cannot place every node after one edge was
/// added to edges that have a topological order, the destination of that
/// edge reaches its source.
pub proof fn lemma_stuck_reaches(nodes: Seq<NodeId>, prev: Seq<Edge>, e: Edge, t: Seq<NodeId>)
    requires
        nodes.no_duplicates(),
        joins(nodes, prev),
        nodes.contains(e.source),
        is_topological(t, nodes, prev),
        schedule(nodes, prev.push(e)).len() < nodes.len(),
    ensures
        reaches(prev, e.destination, e.source),
{
    let all = prev.push(e);
    let r = schedule(nodes, all);
    lemma_extend(nodes, all, Seq::empty(), nodes.len());
    lemma_first_eligible(nodes, all, r, 0);
    lemma_same_length(t, nodes);
    let i = lemma_missing(r, t);
    lemma_walk_back(nodes, prev, e, t, r, i);
    let m = choose|m: int| 0 <= m < t.len() && t[m] == e.source;
    lemma_walk_back(nodes, prev, e, t, r, m);
}

/// One more edge keeps the nodes joined.
pub proof fn lemma_joins_push(nodes: Seq<NodeId>, prev: Seq<Edge>, e: Edge)
    requires
        joins(nodes, prev),
        nodes.contains(e.source),
        nodes.contains(e.destination),
    ensures
        joins(nodes, prev.push(e)),
{
}

/// The test that decides whether a connection closes a cycle: it does
/// exactly when in-degree elimination, run with the connection added to
/// the dependencies before it, cannot place every node.
pub proof fn lemma_decide(nodes: Seq<NodeId>, prev: Seq<Edge>, e: Edge, t: Seq<NodeId>)
    requires
        nodes.no_duplicates(),
        joins(nodes, prev),
        nodes.contains(e.source),
        nodes.contains(e.destination),
        is_topological(t, nodes, prev),
    ensures
        reaches(prev, e.destination, e.source) <==> schedule(nodes, prev.push(e)).len() < nodes.len(),
        schedule(nodes, prev.push(e)).len() <= nodes.len(),
        !reaches(prev, e.destination, e.source) ==> is_topological(
            schedule(nodes, prev.push(e)),
            nodes,
            prev.push(e),
        ),
{
    let all = prev.push(e);
    lemma_extend(nodes, all, Seq::empty(), nodes.len());
    lemma_joins_push(nodes, prev, e);
    if schedule(nodes, all).len() < nodes.len() {
        lemma_stuck_reaches(nodes, prev, e, t);
    } else {
        lemma_complete_is_topological(nodes, all);
        if reaches(prev, e.destination, e.source) {
            lemma_cycle_blocks(schedule(nodes, all), nodes, prev, e);
        }
    }
}

/// The dependencies are connections of the graph, and they have a
/// topological order, which this lemma returns.
pub proof fn lemma_dependencies(nodes: Seq<NodeId>, edges: Seq<Edge>) -> (t: Seq<NodeId>)
    requires
        nodes.no_duplicates(),
        joins(nodes, edges),
    ensures
        is_topological(t, nodes, dependencies(edges)),
        joins(nodes, dependencies(edges)),
        forall|j: int|
            0 <= j < dependencies(edges).len() ==> edges.contains(#[trigger] dependencies(edges)[j]),
    decreases edges.len(),
{
    if edges.len() == 0 {
        nodes
    } else {
        let before = edges.drop_last();
        let e = edges.last();
        let t0 = lemma_dependencies(nodes, before);
        let prev = dependencies(before);
        lemma_decide(nodes, prev, e, t0);
        if reaches(prev, e.destination, e.source) {
            t0
        } else {
            lemma_joins_push(nodes, prev, e);
            let deps = prev.push(e);
            schedule(nodes, deps)
        }
    }
}

/// The dependencies among the first `k` connections are the first of the
/// dependencies among all.
pub proof fn lemma_dependencies_prefix(edges: Seq<Edge>, k: int)
    requires
        0 <= k <= edges.len(),
    ensures
        dependencies(edges.take(k)).is_prefix_of(dependencies(edges)),
    decreases edges.len() - k,
{
    if k == edges.len() {
        assert(edges.take(k) =~= edges);
    } else {
        lemma_dependencies_prefix(edges, k + 1);
        let next = edges.take(k + 1);
        assert(next.drop_last() =~= edges.take(k));
    }
}

/// One step of the replay: the dependencies among the first `k + 1`
/// connections, from those among the first `k`.
pub proof fn lemma_dependencies_step(edges: Seq<Edge>, k: int)
    requires
        0 <= k < edges.len(),
    ensures
        dependencies(edges.take(k + 1)) == if closes_cycle(edges, k) {
            dependencies(edges.take(k))
        } else {
            dependencies(edges.take(k)).push(edges[k])
        },
{
    let next = edges.take(k + 1);
    assert(next.drop_last() =~= edges.take(k));
}

/// Each node that `extend` adds is the first that could be placed after
/// the nodes before it.
pub proof fn lemma_extend_takes_first(
    nodes: Seq<NodeId>,
    deps: Seq<Edge>,
    placed: Seq<NodeId>,
    rounds: nat,
    j: int,
)
    requires
        orderly(nodes, deps, placed),
        placed.len() <= j < extend(nodes, deps, placed, rounds).len(),
    ensures
        first_eligible(nodes, deps, extend(nodes, deps, placed, rounds).take(j), 0) < nodes.len(),
        extend(nodes, deps, placed, rounds)[j] == nodes[first_eligible(
            nodes,
            deps,
            extend(nodes, deps, placed, rounds).take(j),
            0,
        )],
    decreases rounds,
{
    let i = first_eligible(nodes, deps, placed, 0);
    lemma_first_eligible(nodes, deps, placed, 0);
    if !(rounds == 0 || i >= nodes.len()) {
        let next = placed.push(nodes[i]);
        lemma_orderly_push(nodes, deps, placed, nodes[i]);
        lemma_extend(nodes, deps, next, (rounds - 1) as nat);
        let r = extend(nodes, deps, next, (rounds - 1) as nat);
        if j == placed.len() {
            assert(r.take(j) =~= r.take(next.len() as int).take(j));
            assert(next.take(j) =~= placed);
            assert(r[j] == r.take(next.len() as int)[j]);
        } else {
            lemma_extend_takes_first(nodes, deps, next, (rounds - 1) as nat, j);
        }
    }
}

/// Every node is processed exactly once, and every connection that closes
/// no cycle leads from a node to one that is processed later.
pub proof fn lemma_producers_first(nodes: Seq<NodeId>, edges: Seq<Edge>)
    requires
        ascending(nodes),
        joins(nodes, edges),
    ensures
        is_topological(processing_order(nodes, edges), nodes, dependencies(edges)),
        forall|k: int|
            0 <= k < edges.len() && !closes_cycle(edges, k) ==> precedes(
                processing_order(nodes, edges),
                (#[trigger] edges[k]).source,
                edges[k].destination,
            ),
{
    lemma_ascending_distinct(nodes);
    let t = lemma_dependencies(nodes, edges);
    let deps = dependencies(edges);
    lemma_schedule_topological(nodes, deps, t);
    let order = processing_order(nodes, edges);
    assert forall|k: int| 0 <= k < edges.len() && !closes_cycle(edges, k) implies precedes(
        order,
        (#[trigger] edges[k]).source,
        edges[k].destination,
    ) by {
        lemma_dependencies_step(edges, k);
        lemma_dependencies_prefix(edges, k + 1);
        let upto = dependencies(edges.take(k + 1));
        let at = upto.len() - 1;
        assert(upto[at] == edges[k]);
        lemma_edge_forward(order, nodes, deps, edges[k].source, edges[k].destination);
    }
}

/// Among the nodes whose producers have all been processed, the one with
/// the smallest identifier is processed next.
pub proof fn lemma_smallest_ready_first(nodes: Seq<NodeId>, edges: Seq<Edge>, j: int, v: NodeId)
    requires
        ascending(nodes),
        joins(nodes, edges),
        0 <= j < nodes.len(),
        nodes.contains(v),
        eligible(dependencies(edges), processing_order(nodes, edges).take(j), v),
    ensures
        processing_order(nodes, edges).len() == nodes.len(),
        processing_order(nodes, edges)[j].0 <= v.0,
{
    lemma_producers_first(nodes, edges);
    lemma_ascending_distinct(nodes);
    let deps = dependencies(edges);
    let order = processing_order(nodes, edges);
    lemma_same_length(order, nodes);
    lemma_extend_takes_first(nodes, deps, Seq::empty(), nodes.len(), j);
    lemma_first_eligible(nodes, deps, order.take(j), 0);
}

/// The connections that close a cycle are exactly those left out of the
/// dependencies; what is left is free of cycles; and each connection left
/// out would close one: its destination reaches its source.
pub proof fn lemma_cycles_excluded(nodes: Seq<NodeId>, edges: Seq<Edge>)
    requires
        ascending(nodes),
        joins(nodes, edges),
    ensures
        acyclic(dependencies(edges)),
        forall|k: int|
            0 <= k < edges.len() ==> (closes_cycle(edges, k) <==> !dependencies(edges).contains(
                #[trigger] edges[k],
            )),
        forall|k: int|
            0 <= k < edges.len() && closes_cycle(edges, k) ==> reaches(
                dependencies(edges),
                (#[trigger] edges[k]).destination,
                edges[k].source,
            ),
{
    lemma_ascending_distinct(nodes);
    let t = lemma_dependencies(nodes, edges);
    let deps = dependencies(edges);
    lemma_topological_acyclic(t, nodes, deps);
    assert forall|k: int| 0 <= k < edges.len() implies (closes_cycle(edges, k) ==> reaches(
        deps,
        (#[trigger] edges[k]).destination,
        edges[k].source,
    )) && (closes_cycle(edges, k) <==> !deps.contains(edges[k])) by {
        lemma_dependencies_step(edges, k);
        lemma_dependencies_prefix(edges, k);
        lemma_dependencies_prefix(edges, k + 1);
        let before = dependencies(edges.take(k));
        if closes_cycle(edges, k) {
            let p = choose|p: Seq<NodeId>| #[trigger]
                is_path(before, p) && p[0] == edges[k].destination && p.last() == edges[k].source;
            lemma_path_monotone(before, deps, p);
            if deps.contains(edges[k]) {
                lemma_path_push(deps, p, edges[k].destination);
            }
        } else {
            let upto = dependencies(edges.take(k + 1));
            let at = upto.len() - 1;
            assert(upto[at] == edges[k]);
        }
    }
}

} // verus!
